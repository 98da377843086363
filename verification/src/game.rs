//! A game of Beggar My Neighbour on two hands and a pile.

use crate::card::Card;
use crate::circlebuffer::{CircularBuffer, CAPACITY};
use crate::cursorslice::CursorSlice;
use crate::deck::randomize_deck;
use crate::notation::{
    cards_named, displayed_table, lemma_description_is_written_back, lemma_no_separator,
    lemma_separators, names_cards, parse_deck, separator_at, stringified_table, symbols,
    DeckError,
};
use crate::rules::{
    lemma_start_is_sound, lemma_step_keeps_all_cards, lemma_step_keeps_cards,
    lemma_step_keeps_sound, Player, Round, Table, DECK_SIZE, HAND_SIZE, MAX_TURNS,
};
use vstd::prelude::*;
use vstd::slice::slice_subrange;
use vstd::string::StringExecFns;

verus! {

/// Who has won a game.
#[derive(Debug, Copy, Clone, PartialEq, Eq, Structural)]
pub enum Winner {
    /// The first player: the second is to play and is down to one card.
    P1,
    /// The second player: the first is to play and is down to one card.
    P2,
    /// Nobody: the player who is to play is not down to one card. The
    /// game has not been played out yet, or it was cut off.
    Infinite,
}

/// How long a game took.
#[derive(Debug, Copy, Clone, PartialEq, Eq, Structural)]
pub struct GameStats {
    /// One more than the number of cards played.
    pub turns: usize,
    /// The number of penalty cards played while nothing was owed.
    pub tricks: usize,
}

/// Who has won on `table`: the opponent of the player who is to play,
/// where that player is down to one card; else nobody.
pub open spec fn winner_of(table: Table) -> Winner {
    if table.hand(table.active).len() != 1 {
        Winner::Infinite
    } else if table.active == Player::One {
        Winner::P2
    } else {
        Winner::P1
    }
}

/// Replaying a description gives the same game: two tables read from one
/// description are played out to the same end, with the same counts of
/// turns and tricks and the same winner.
pub proof fn lemma_replay_agrees(description: Seq<char>, first: Table, second: Table)
    requires
        parse_deck(description) == Ok::<Table, DeckError>(first),
        parse_deck(description) == Ok::<Table, DeckError>(second),
    ensures
        Round::start(first).outcome() == Round::start(second).outcome(),
        Round::start(first).outcome().turns == Round::start(second).outcome().turns,
        Round::start(first).outcome().tricks == Round::start(second).outcome().tricks,
        winner_of(Round::start(first).outcome().table) == winner_of(
            Round::start(second).outcome().table,
        ),
{
}

/// Appends to `text` the characters that name `cards`.
fn append_cards(text: &mut String, cards: &[Card])
    ensures
        final(text)@ == old(text)@ + symbols(cards@),
{
    let mut i: usize = 0;
    while i < cards.len()
        invariant
            i <= cards@.len(),
            text@ == old(text)@ + symbols(cards@.subrange(0, i as int)),
        decreases cards@.len() - i,
    {
        text.append(cards[i].as_str());
        proof {
            assert(symbols(cards@.subrange(0, i + 1)) == symbols(cards@.subrange(0, i as int))
                + seq![cards@[i as int].symbol()]);
        }
        i += 1;
    }
    proof {
        assert(cards@.subrange(0, i as int) == cards@);
    }
}

/// The round that stands at `table` with the counts of `stats`.
pub open spec fn round_of(table: Table, stats: GameStats) -> Round {
    Round { table, turns: stats.turns as nat, tricks: stats.tricks as nat }
}

/// A game: the two players' hands, the pile between them, what is owed,
/// and whose turn it is.
#[derive(Debug)]
pub struct Game {
    /// The first player's hand: cards leave at the front and join at the back.
    p1: CircularBuffer<Card>,
    /// The second player's hand: cards leave at the front and join at the back.
    p2: CircularBuffer<Card>,
    /// The pile in the middle, which is only ever added to or taken whole.
    middle: CursorSlice<Card, DECK_SIZE>,
    /// The number of cards still owed; 0 when nothing is owed.
    penalty: u8,
    /// The player who is to play the next card.
    active: Player,
}

impl Clone for Game {
    /// A game with the same cards in the same places, the same debt and
    /// the same player to play.
    fn clone(&self) -> (copy: Self)
        ensures
            copy@ == self@,
            self.wf() ==> copy.wf(),
    {
        Game {
            p1: self.p1.clone(),
            p2: self.p2.clone(),
            middle: self.middle.clone(),
            penalty: self.penalty,
            active: self.active,
        }
    }
}

impl Game {
    /// The game is sound: its hands and its pile are sound, and no more
    /// than four cards are owed.
    pub closed spec fn wf(&self) -> bool {
        &&& self.p1.wf()
        &&& self.p2.wf()
        &&& self.middle.wf()
        &&& self.p1@.len() <= CAPACITY
        &&& self.p2@.len() <= CAPACITY
        &&& self.middle@.len() <= DECK_SIZE
        &&& self.penalty <= 4
    }

    /// Where the cards of the game lie, what is owed, and whose turn it
    /// is.
    pub closed spec fn view(&self) -> Table {
        Table {
            hand1: self.p1@,
            hand2: self.p2@,
            pile: self.middle@,
            penalty: self.penalty as nat,
            active: self.active,
        }
    }

    /// In a sound game neither hand holds more cards than a queue has
    /// room for, the pile holds no more than `DECK_SIZE` cards, and no
    /// more than four cards are owed.
    pub proof fn lemma_wf_bounds(&self)
        requires
            self.wf(),
        ensures
            self@.hand1.len() <= CAPACITY,
            self@.hand2.len() <= CAPACITY,
            self@.pile.len() <= DECK_SIZE,
            self@.penalty <= 4,
    {
    }

    /// Reads `string` as a deck description in one pass, and tells what
    /// is wrong with it where it is none.
    fn read(string: &str) -> (parsed: Result<Game, DeckError>)
        ensures
            match parsed {
                Ok(game) => game.wf() && parse_deck(string@) == Ok::<Table, DeckError>(game@),
                Err(error) => parse_deck(string@) == Err::<Table, DeckError>(error),
            },
    {
        let mut first: Vec<Card> = Vec::new();
        let mut second: Vec<Card> = Vec::new();
        // The number of separators seen: 0, 1, or 2 for any larger number.
        let mut seen: u8 = 0;
        let mut unknown = false;
        let ghost mut at: int = 0;
        for c in it: string.chars()
            invariant
                it.seq() == string@,
                seen <= 2,
                seen == 0 ==> forall|j: int| 0 <= j < it.index() ==> string@[j] != '/',
                seen == 0 ==> second@.len() == 0,
                seen == 0 ==> (unknown <==> !names_cards(string@.subrange(0, it.index() as int))),
                seen == 0 && !unknown ==> first@ == cards_named(
                    string@.subrange(0, it.index() as int),
                ),
                seen >= 1 ==> 0 <= at < it.index() && string@[at] == '/',
                seen == 1 ==> forall|j: int|
                    0 <= j < it.index() && j != at ==> string@[j] != '/',
                seen == 1 ==> (unknown <==> !names_cards(string@.subrange(0, at)) || !names_cards(
                    string@.subrange(at + 1, it.index() as int),
                )),
                seen == 1 && !unknown ==> first@ == cards_named(string@.subrange(0, at))
                    && second@ == cards_named(string@.subrange(at + 1, it.index() as int)),
                seen == 2 ==> exists|j: int|
                    0 <= j < it.index() && j != at && string@[j] == '/',
        {
            let ghost k = it.index() as int;
            let ghost from: int = if seen == 0 {
                0
            } else {
                at + 1
            };
            let ghost before = string@.subrange(from, k);
            let ghost after = string@.subrange(from, k + 1);
            proof {
                assert(after.drop_last() == before);
                assert(after.last() == c);
                assert forall|j: int| 0 <= j < before.len() implies before[j] == after[j] by {}
            }
            if c == '/' {
                if seen == 0 {
                    proof {
                        at = k;
                        assert(string@.subrange(at + 1, k + 1) == Seq::<char>::empty());
                    }
                    seen = 1;
                } else {
                    seen = 2;
                }
            } else {
                if Card::is_card_char(c) {
                    let card = Card::from_char(c);
                    proof {
                        if names_cards(before) {
                            assert forall|j: int| 0 <= j < after.len() implies (
                            #[trigger] Card::of_char(after[j])) is Some by {
                                if j < before.len() {
                                    assert(Card::of_char(before[j]) is Some);
                                }
                            }
                        } else {
                            let j = choose|j: int|
                                0 <= j < before.len() && !(#[trigger] Card::of_char(
                                    before[j],
                                ) is Some);
                            assert(!(Card::of_char(after[j]) is Some));
                        }
                        assert(cards_named(after) == cards_named(before).push(card));
                    }
                    if seen == 0 {
                        first.push(card);
                    } else {
                        second.push(card);
                    }
                } else {
                    proof {
                        assert(!(Card::of_char(after[k - from]) is Some));
                    }
                    unknown = true;
                }
            }
        }
        proof {
            let s = string@;
            assert(s.subrange(0, s.len() as int) == s);
            if seen == 0 {
                lemma_no_separator(s);
            } else {
                lemma_separators(s, at);
                if seen == 1 {
                    assert(separator_at(s) == at);
                }
            }
        }
        if seen != 1 {
            Err(DeckError::Sections)
        } else if unknown {
            Err(DeckError::Character)
        } else if first.len() > DECK_SIZE || second.len() > DECK_SIZE {
            Err(DeckError::Capacity)
        } else {
            Ok(
                Game {
                    p1: CircularBuffer::from_memory(first.as_slice()),
                    p2: CircularBuffer::from_memory(second.as_slice()),
                    middle: CursorSlice::new(),
                    penalty: 0,
                    active: Player::One,
                },
            )
        }
    }

    /// What is wrong with `string` as a deck description, or `None` where
    /// it is one: it does not hold exactly one `/`; else a character of it
    /// names no card; else a hand holds more than `DECK_SIZE` cards.
    pub fn fault(string: &str) -> (found: Option<DeckError>)
        ensures
            match found {
                None => parse_deck(string@) is Ok,
                Some(error) => parse_deck(string@) == Err::<Table, DeckError>(error),
            },
    {
        match Game::read(string) {
            Ok(_) => None,
            Err(error) => Some(error),
        }
    }

    /// The game that a deck description describes: the first player's
    /// hand, a `/`, and the second player's hand, each hand head first,
    /// with `A`, `K`, `Q`, `J` for the court cards and `-` for any other
    /// card. The pile is empty, nothing is owed, and the first player is
    /// to play. A text that is no deck description is no input to this
    /// function: `fault` tells.
    pub fn from_string(string: &str) -> (game: Game)
        requires
            parse_deck(string@) is Ok,
        ensures
            game.wf(),
            parse_deck(string@) == Ok::<Table, DeckError>(game@),
            stringified_table(game@) == string@,
    {
        proof {
            lemma_description_is_written_back(string@);
        }
        match Game::read(string) {
            Ok(game) => game,
            Err(_) => unreached(),
        }
    }

    /// Deals a shuffled deck: shuffles `deck` in place and gives its first
    /// half to the first player and its second half to the second, card
    /// for card in the order of the deck. The deck holds the same cards
    /// after the shuffle as before. The first player is to play.
    pub fn random(deck: &mut [Card; DECK_SIZE]) -> (game: Game)
        ensures
            game.wf(),
            final(deck)@.to_multiset() == old(deck)@.to_multiset(),
            game@ == (Table {
                hand1: final(deck)@.subrange(0, HAND_SIZE as int),
                hand2: final(deck)@.subrange(HAND_SIZE as int, DECK_SIZE as int),
                pile: Seq::empty(),
                penalty: 0,
                active: Player::One,
            }),
    {
        randomize_deck(deck);
        let cards = deck.as_slice();
        Game {
            p1: CircularBuffer::from_memory(slice_subrange(cards, 0, HAND_SIZE)),
            p2: CircularBuffer::from_memory(slice_subrange(cards, HAND_SIZE, DECK_SIZE)),
            middle: CursorSlice::new(),
            penalty: 0,
            active: Player::One,
        }
    }

    /// Whether a game can be played from here: the player who is to play
    /// holds a card, and unless it is their last one, so does the
    /// opponent.
    pub fn is_playable(&self) -> (playable: bool)
        requires
            self.wf(),
        ensures
            playable == self@.playable(),
    {
        let (mine, theirs) = match self.active {
            Player::One => (self.p1.len(), self.p2.len()),
            Player::Two => (self.p2.len(), self.p1.len()),
        };
        mine == 1 || (mine >= 1 && theirs >= 1)
    }

    /// The number of cards in both hands and the pile together.
    pub fn cards(&self) -> (count: usize)
        requires
            self.wf(),
        ensures
            count == self@.cards(),
    {
        self.p1.len() + self.p2.len() + self.middle.len()
    }

    /// The player who is to play the next card.
    pub fn active(&self) -> (player: Player)
        ensures
            player == self@.active,
    {
        self.active
    }

    /// Whether the game is over at the counts of `stats`: the player who
    /// is to play is down to one card, or the count of turns has reached
    /// `MAX_TURNS`.
    pub fn is_over(&self, stats: &GameStats) -> (over: bool)
        requires
            self.wf(),
        ensures
            over == round_of(self@, *stats).halted(),
    {
        let in_hand = match self.active {
            Player::One => self.p1.len(),
            Player::Two => self.p2.len(),
        };
        in_hand == 1 || stats.turns >= MAX_TURNS
    }

    /// Plays one card: the player who is to play moves the card at the
    /// head of their hand to the pile, and the card is settled. The counts
    /// in `stats` are brought up to date. No card is made or lost.
    ///
    /// The pile has room for `DECK_SIZE` cards, so the game must not hold
    /// more.
    pub fn turn(&mut self, stats: &mut GameStats)
        requires
            old(self).wf(),
            old(self)@.hand(old(self)@.active).len() >= 1,
            old(self)@.cards() <= DECK_SIZE,
            old(stats).turns < usize::MAX,
            old(stats).tricks < usize::MAX,
        ensures
            final(self).wf(),
            round_of(final(self)@, *final(stats)) == round_of(old(self)@, *old(stats)).step(),
            final(self)@.cards() == old(self)@.cards(),
            final(self)@.all_cards() == old(self)@.all_cards(),
    {
        proof {
            lemma_step_keeps_cards(round_of(self@, *stats));
            lemma_step_keeps_all_cards(round_of(self@, *stats));
        }
        let active = self.active;
        let card = match active {
            Player::One => self.p1.pop_unchecked(),
            Player::Two => self.p2.pop_unchecked(),
        };
        self.middle.push_unchecked(card);
        stats.turns += 1;
        if card == Card::Other {
            match self.penalty {
                0 => {
                    self.active = active.opponent();
                },
                1 => {
                    // The last card owed: the pile goes to the player who
                    // set the penalty.
                    let setter = active.opponent();
                    match setter {
                        Player::One => self.p1.push_slice(self.middle.slice()),
                        Player::Two => self.p2.push_slice(self.middle.slice()),
                    }
                    self.middle.clear();
                    self.penalty = 0;
                    self.active = setter;
                },
                _ => {
                    self.penalty -= 1;
                },
            }
        } else {
            // A penalty card overrides whatever was owed.
            if self.penalty == 0 {
                stats.tricks += 1;
            }
            self.penalty = card.penalty();
            self.active = active.opponent();
        }
    }

    /// Plays the game out from where it stands and returns how long it
    /// took. The game ends when the player who is to play is down to one
    /// card, or when the count of turns, which begins at one, reaches
    /// `MAX_TURNS`; it always ends. Only a game that was cut off there is
    /// left without a winner. No card is made or lost.
    ///
    /// The pile has room for `DECK_SIZE` cards, so the game must not hold
    /// more.
    pub fn play(&mut self) -> (stats: GameStats)
        requires
            old(self).wf(),
            old(self)@.playable(),
            old(self)@.cards() <= DECK_SIZE,
        ensures
            final(self).wf(),
            Round::start(old(self)@).outcome().halted(),
            final(self)@ == Round::start(old(self)@).outcome().table,
            stats.turns == Round::start(old(self)@).outcome().turns,
            stats.tricks == Round::start(old(self)@).outcome().tricks,
            final(self)@.cards() == old(self)@.cards(),
            final(self)@.all_cards() == old(self)@.all_cards(),
            stats.tricks < stats.turns <= MAX_TURNS,
            winner_of(final(self)@) == Winner::Infinite ==> stats.turns == MAX_TURNS,
    {
        let mut stats = GameStats { turns: 1, tricks: 0 };
        let ghost begin = Round::start(self@);
        let ghost mut fuel: nat = MAX_TURNS as nat;
        proof {
            lemma_start_is_sound(self@);
        }
        while !self.is_over(&stats)
            invariant
                self.wf(),
                round_of(self@, stats).sound(),
                stats.turns + fuel == MAX_TURNS + 1,
                begin.outcome() == round_of(self@, stats).run(fuel),
                self@.cards() == begin.table.cards(),
                self@.cards() <= DECK_SIZE,
                self@.all_cards() == begin.table.all_cards(),
            decreases fuel,
        {
            proof {
                lemma_step_keeps_sound(round_of(self@, stats));
            }
            self.turn(&mut stats);
            proof {
                fuel = (fuel - 1) as nat;
            }
        }
        stats
    }

    /// The cards in the hand of `player`, the next to be played first.
    pub fn hand(&self, player: Player) -> (cards: Vec<Card>)
        requires
            self.wf(),
        ensures
            cards@ == self@.hand(player),
    {
        match player {
            Player::One => self.p1.slice(),
            Player::Two => self.p2.slice(),
        }
    }

    /// The cards on the pile, the earliest played first.
    pub fn pile(&self) -> (cards: Vec<Card>)
        ensures
            cards@ == self@.pile,
    {
        self.middle.iter()
    }

    /// The number of cards still owed.
    pub fn penalty(&self) -> (owed: u8)
        ensures
            owed == self@.penalty,
    {
        self.penalty
    }

    /// The game on one line, as a deck description reads it: the first
    /// hand, a `/`, the second hand, and, where cards are owed, a `+` and
    /// their number. The pile is left out.
    pub fn stringified(&self) -> (text: String)
        requires
            self.wf(),
        ensures
            text@ == stringified_table(self@),
    {
        proof {
            reveal_strlit("/");
            reveal_strlit("+1");
            reveal_strlit("+2");
            reveal_strlit("+3");
            reveal_strlit("+4");
        }
        let mut text = String::new();
        let first = self.p1.slice();
        append_cards(&mut text, first.as_slice());
        text.append("/");
        let second = self.p2.slice();
        append_cards(&mut text, second.as_slice());
        if self.penalty == 1 {
            text.append("+1");
        } else if self.penalty == 2 {
            text.append("+2");
        } else if self.penalty == 3 {
            text.append("+3");
        } else if self.penalty == 4 {
            text.append("+4");
        }
        assert(text@ =~= stringified_table(self@));
        text
    }

    /// The game for a reader: a line for each hand, and a third for the
    /// pile where it is not empty.
    pub fn to_string(&self) -> (text: String)
        requires
            self.wf(),
        ensures
            text@ == displayed_table(self@),
    {
        let mut text = String::new();
        text.append("p1: ");
        let first = self.p1.slice();
        append_cards(&mut text, first.as_slice());
        text.append("\np2: ");
        let second = self.p2.slice();
        append_cards(&mut text, second.as_slice());
        if !self.middle.is_empty() {
            text.append("\nmiddle: ");
            append_cards(&mut text, self.middle.slice());
        }
        assert(text@ =~= displayed_table(self@));
        text
    }

    /// Who has won: the opponent of the player who is to play, where that
    /// player is down to one card; else nobody.
    pub fn winner(&self) -> (winner: Winner)
        requires
            self.wf(),
        ensures
            winner == winner_of(self@),
    {
        let in_hand = match self.active {
            Player::One => self.p1.len(),
            Player::Two => self.p2.len(),
        };
        if in_hand != 1 {
            Winner::Infinite
        } else {
            match self.active {
                Player::One => Winner::P2,
                Player::Two => Winner::P1,
            }
        }
    }
}

} // verus!
