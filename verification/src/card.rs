//! The five kinds of card and what each one demands of the opponent.

use vstd::prelude::*;

verus! {

/// A card, told apart only by kind: the four court cards each demand a
/// payment from the opponent, every other card demands nothing.
#[derive(Debug, Copy, Clone, PartialEq, Eq, Structural)]
pub enum Card {
    /// Penalty card: the opponent owes four cards.
    Ace,
    /// Penalty card: the opponent owes three cards.
    King,
    /// Penalty card: the opponent owes two cards.
    Queen,
    /// Penalty card: the opponent owes one card.
    Jack,
    /// Any card from two to ten: no penalty.
    Other,
}

impl Card {
    /// The number of cards the opponent owes once this card is played.
    pub open spec fn weight(self) -> nat {
        match self {
            Card::Ace => 4,
            Card::King => 3,
            Card::Queen => 2,
            Card::Jack => 1,
            Card::Other => 0,
        }
    }

    /// The card a character of a deck description names, if it names one.
    pub open spec fn of_char(c: char) -> Option<Card> {
        if c == 'A' {
            Some(Card::Ace)
        } else if c == 'K' {
            Some(Card::King)
        } else if c == 'Q' {
            Some(Card::Queen)
        } else if c == 'J' {
            Some(Card::Jack)
        } else if c == '-' {
            Some(Card::Other)
        } else {
            None
        }
    }

    /// The character that names this card in a deck description.
    pub open spec fn symbol(self) -> char {
        match self {
            Card::Ace => 'A',
            Card::King => 'K',
            Card::Queen => 'Q',
            Card::Jack => 'J',
            Card::Other => '-',
        }
    }

    /// The penalty this card sets: 4, 3, 2, 1 for ace, king, queen, jack
    /// and 0 for any other card.
    pub fn penalty(self) -> (p: u8)
        ensures
            p == self.weight(),
    {
        match self {
            Card::Ace => 4,
            Card::King => 3,
            Card::Queen => 2,
            Card::Jack => 1,
            Card::Other => 0,
        }
    }

    /// Whether `c` names a card: `A`, `K`, `Q`, `J` name the court cards
    /// and `-` any other card; nothing else names one.
    pub fn is_card_char(c: char) -> (named: bool)
        ensures
            named == Card::of_char(c) is Some,
    {
        c == 'A' || c == 'K' || c == 'Q' || c == 'J' || c == '-'
    }

    /// Reads one character of a deck description: `A`, `K`, `Q`, `J` name
    /// the court cards and `-` any other card. A character that names no
    /// card is no input to this function: `is_card_char` tells.
    pub fn from_char(c: char) -> (card: Card)
        requires
            Card::of_char(c) is Some,
        ensures
            Card::of_char(c) == Some(card),
    {
        if c == 'A' {
            Card::Ace
        } else if c == 'K' {
            Card::King
        } else if c == 'Q' {
            Card::Queen
        } else if c == 'J' {
            Card::Jack
        } else if c == '-' {
            Card::Other
        } else {
            unreached()
        }
    }

    /// The one-character text that names this card.
    pub fn as_str(self) -> (text: &'static str)
        ensures
            text@ == seq![self.symbol()],
    {
        proof {
            reveal_strlit("A");
            reveal_strlit("K");
            reveal_strlit("Q");
            reveal_strlit("J");
            reveal_strlit("-");
        }
        let text = match self {
            Card::Ace => "A",
            Card::King => "K",
            Card::Queen => "Q",
            Card::Jack => "J",
            Card::Other => "-",
        };
        assert(text@ =~= seq![self.symbol()]);
        text
    }

    /// The character that names this card; `from_char` reads it back.
    pub fn to_char(self) -> (c: char)
        ensures
            c == self.symbol(),
            Card::of_char(c) == Some(self),
    {
        match self {
            Card::Ace => 'A',
            Card::King => 'K',
            Card::Queen => 'Q',
            Card::Jack => 'J',
            Card::Other => '-',
        }
    }
}

} // verus!
