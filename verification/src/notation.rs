//! The notation for a deal: how the two hands are written down as text,
//! and what a text means as a deal.

use crate::card::Card;
use crate::rules::{Player, Table, DECK_SIZE};
use vstd::prelude::*;

verus! {

/// Why a deck description is not one.
#[derive(Debug, Copy, Clone, PartialEq, Eq, Structural)]
pub enum DeckError {
    /// The description does not consist of exactly two hands with one `/`
    /// between them.
    Sections,
    /// A hand holds a character that names no card.
    Character,
    /// A hand holds more than `DECK_SIZE` cards.
    Capacity,
}

/// The number of `/` characters in `s`.
pub open spec fn separators(s: Seq<char>) -> nat
    decreases s.len(),
{
    if s.len() == 0 {
        0
    } else {
        separators(s.drop_last()) + if s.last() == '/' {
            1nat
        } else {
            0nat
        }
    }
}

/// The place of a `/` in `s`; where `s` holds exactly one, its place.
pub open spec fn separator_at(s: Seq<char>) -> int {
    choose|i: int| 0 <= i < s.len() && s[i] == '/'
}

/// Every character of `s` names a card.
pub open spec fn names_cards(s: Seq<char>) -> bool {
    forall|i: int| 0 <= i < s.len() ==> (#[trigger] Card::of_char(s[i])) is Some
}

/// The cards that the characters of `s` name, in their order.
pub open spec fn cards_named(s: Seq<char>) -> Seq<Card> {
    Seq::new(s.len(), |i: int| Card::of_char(s[i])->0)
}

/// What a deck description describes: the first player's hand, a `/`, and
/// the second player's hand, each hand written head first with one
/// character for each card; the pile is empty, nothing is owed, and the
/// first player is to play. A text is no description when it does not
/// hold exactly one `/`; else when a character names no card; else when a
/// hand holds more than `DECK_SIZE` cards. The two hands need not be of
/// one length, nor make up a full deck.
pub open spec fn parse_deck(s: Seq<char>) -> Result<Table, DeckError> {
    let at = separator_at(s);
    let first = s.subrange(0, at);
    let second = s.subrange(at + 1, s.len() as int);
    if separators(s) != 1 {
        Err(DeckError::Sections)
    } else if !names_cards(first) || !names_cards(second) {
        Err(DeckError::Character)
    } else if first.len() > DECK_SIZE || second.len() > DECK_SIZE {
        Err(DeckError::Capacity)
    } else {
        Ok(
            Table {
                hand1: cards_named(first),
                hand2: cards_named(second),
                pile: Seq::empty(),
                penalty: 0,
                active: Player::One,
            },
        )
    }
}

/// A prefix without a `/` counts no separator.
pub proof fn lemma_no_separator(s: Seq<char>)
    requires
        forall|i: int| 0 <= i < s.len() ==> s[i] != '/',
    ensures
        separators(s) == 0,
    decreases s.len(),
{
    if s.len() > 0 {
        lemma_no_separator(s.drop_last());
    }
}

/// The number of separators is the number of places that hold a `/`: it
/// is 1 exactly when one place does, and more when two places do.
pub proof fn lemma_separators(s: Seq<char>, at: int)
    requires
        0 <= at < s.len(),
        s[at] == '/',
    ensures
        separators(s) >= 1,
        (forall|i: int| 0 <= i < s.len() && i != at ==> s[i] != '/') ==> separators(s) == 1,
        (exists|i: int| 0 <= i < s.len() && i != at && s[i] == '/') ==> separators(s) >= 2,
    decreases s.len(),
{
    let shorter = s.drop_last();
    if at == s.len() - 1 {
        if forall|i: int| 0 <= i < s.len() && i != at ==> s[i] != '/' {
            lemma_no_separator(shorter);
        }
        if exists|i: int| 0 <= i < s.len() && i != at && s[i] == '/' {
            let i = choose|i: int| 0 <= i < s.len() && i != at && s[i] == '/';
            lemma_separators(shorter, i);
        }
    } else {
        lemma_separators(shorter, at);
        if exists|i: int| 0 <= i < s.len() && i != at && s[i] == '/' {
            let i = choose|i: int| 0 <= i < s.len() && i != at && s[i] == '/';
            if i < s.len() - 1 {
                assert(shorter[i] == '/');
            }
        }
    }
}

/// The characters that name `cards`, in their order.
pub open spec fn symbols(cards: Seq<Card>) -> Seq<char> {
    Seq::new(cards.len(), |i: int| cards[i].symbol())
}

/// The digit that stands for a debt of `owed` cards, which is between one
/// and four.
pub open spec fn debt_symbol(owed: nat) -> char {
    if owed == 1 {
        '1'
    } else if owed == 2 {
        '2'
    } else if owed == 3 {
        '3'
    } else {
        '4'
    }
}

/// The description of a table on one line: the first hand, a `/`, the
/// second hand, and, where cards are owed, a `+` and their number.
pub open spec fn stringified_table(table: Table) -> Seq<char> {
    let hands = symbols(table.hand1) + seq!['/'] + symbols(table.hand2);
    if table.penalty > 0 {
        hands + seq!['+', debt_symbol(table.penalty)]
    } else {
        hands
    }
}

/// The description of a table for a reader: a line for each hand, and a
/// third for the pile where it is not empty.
pub open spec fn displayed_table(table: Table) -> Seq<char> {
    let hands = "p1: "@ + symbols(table.hand1) + "\np2: "@ + symbols(table.hand2);
    if table.pile.len() > 0 {
        hands + "\nmiddle: "@ + symbols(table.pile)
    } else {
        hands
    }
}

/// A text that counts a separator holds a `/`.
pub proof fn lemma_separator_exists(s: Seq<char>)
    requires
        separators(s) >= 1,
    ensures
        exists|i: int| 0 <= i < s.len() && s[i] == '/',
{
    if forall|i: int| 0 <= i < s.len() ==> s[i] != '/' {
        lemma_no_separator(s);
    }
}

/// A deck description is written back as it was read: the description on
/// one line of the table that it describes is the description itself.
pub proof fn lemma_description_is_written_back(s: Seq<char>)
    requires
        parse_deck(s) is Ok,
    ensures
        stringified_table(parse_deck(s)->Ok_0) == s,
{
    lemma_separator_exists(s);
    let at = separator_at(s);
    let first = s.subrange(0, at);
    let second = s.subrange(at + 1, s.len() as int);
    assert forall|i: int| 0 <= i < first.len() implies (#[trigger] symbols(cards_named(first))[i])
        == first[i] by {
        assert(Card::of_char(first[i]) is Some);
    }
    assert forall|i: int| 0 <= i < second.len() implies (#[trigger] symbols(
        cards_named(second),
    )[i]) == second[i] by {
        assert(Card::of_char(second[i]) is Some);
    }
    assert(symbols(cards_named(first)) == first);
    assert(symbols(cards_named(second)) == second);
    assert(s == first + seq!['/'] + second);
}

/// A table on which the first player is to play, with nothing on the
/// pile and nothing owed, is read back from its description on one line,
/// as long as neither hand holds more than `DECK_SIZE` cards.
pub proof fn lemma_stringified_reads_back(table: Table)
    requires
        table.pile.len() == 0,
        table.penalty == 0,
        table.active == Player::One,
        table.hand1.len() <= DECK_SIZE,
        table.hand2.len() <= DECK_SIZE,
    ensures
        parse_deck(stringified_table(table)) == Ok::<Table, DeckError>(table),
{
    let first = symbols(table.hand1);
    let second = symbols(table.hand2);
    let s = stringified_table(table);
    let at = first.len() as int;
    assert(s == first + seq!['/'] + second);
    assert(s[at] == '/');
    assert forall|i: int| 0 <= i < s.len() && i != at implies s[i] != '/' by {
        if i < at {
            assert(s[i] == table.hand1[i].symbol());
        } else {
            assert(s[i] == table.hand2[i - at - 1].symbol());
        }
    }
    lemma_separators(s, at);
    assert(separator_at(s) == at);
    assert(s.subrange(0, at) == first);
    assert(s.subrange(at + 1, s.len() as int) == second);
    assert forall|i: int| 0 <= i < first.len() implies (#[trigger] Card::of_char(first[i]))
        == Some(table.hand1[i]) by {}
    assert forall|i: int| 0 <= i < second.len() implies (#[trigger] Card::of_char(second[i]))
        == Some(table.hand2[i]) by {}
    assert(cards_named(first) == table.hand1);
    assert(cards_named(second) == table.hand2);
    assert(table.pile == Seq::<Card>::empty());
}

} // verus!
