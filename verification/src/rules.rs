//! The rules of Beggar My Neighbour as a state machine over sequences of
//! cards, and the laws that every turn obeys.

use crate::card::Card;
use vstd::multiset::Multiset;
use vstd::prelude::*;

verus! {

/// The number of cards in a full deck: the most that a hand or the pile
/// holds, and the most that a game can be played with.
pub const DECK_SIZE: usize = 52;

/// The number of cards dealt to each player from a full deck.
pub const HAND_SIZE: usize = DECK_SIZE / 2;

/// The number at which the count of turns is capped: a game that has not
/// ended before its count of turns reaches it is cut off there.
pub const MAX_TURNS: usize = 100_000;

/// One of the two players.
#[derive(Debug, Copy, Clone, PartialEq, Eq, Structural)]
pub enum Player {
    /// The player who holds the first hand and plays first.
    One,
    /// The player who holds the second hand.
    Two,
}

impl Player {
    /// The other player.
    pub open spec fn other(self) -> Player {
        match self {
            Player::One => Player::Two,
            Player::Two => Player::One,
        }
    }

    /// The other player.
    pub fn opponent(self) -> (p: Player)
        ensures
            p == self.other(),
    {
        match self {
            Player::One => Player::Two,
            Player::Two => Player::One,
        }
    }
}

/// Where every card of a game lies, what is owed, and whose turn it is.
pub struct Table {
    /// The first player's hand, the card to be played next first.
    pub hand1: Seq<Card>,
    /// The second player's hand, the card to be played next first.
    pub hand2: Seq<Card>,
    /// The cards played since the last capture, the earliest first.
    pub pile: Seq<Card>,
    /// The number of cards still owed to the last penalty card; 0 when
    /// nothing is owed.
    pub penalty: nat,
    /// The player who is to play the next card.
    pub active: Player,
}

impl Table {
    /// The hand of player `p`.
    pub open spec fn hand(self, p: Player) -> Seq<Card> {
        match p {
            Player::One => self.hand1,
            Player::Two => self.hand2,
        }
    }

    /// The number of cards in both hands and the pile together.
    pub open spec fn cards(self) -> nat {
        self.hand1.len() + self.hand2.len() + self.pile.len()
    }

    /// The cards in both hands and the pile together, each kind as often
    /// as it occurs, whatever their places.
    pub open spec fn all_cards(self) -> Multiset<Card> {
        self.hand1.to_multiset().add(self.hand2.to_multiset()).add(self.pile.to_multiset())
    }

    /// A game can be played from this table: the player who is to play
    /// holds a card, and unless it is their last one, so does the
    /// opponent. This holds at every point of a game that began so.
    pub open spec fn playable(self) -> bool {
        &&& self.hand(self.active).len() >= 1
        &&& self.hand(self.active).len() == 1 || self.hand(self.active.other()).len() >= 1
    }
}

/// A game in progress: the table and the counts so far.
pub struct Round {
    /// Where the cards lie, what is owed, and whose turn it is.
    pub table: Table,
    /// One more than the number of cards played so far.
    pub turns: nat,
    /// The number of penalty cards played so far while nothing was owed.
    pub tricks: nat,
}

impl Round {
    /// The round as play begins on `table`: the count of turns stands at
    /// one, and no trick has been counted.
    pub open spec fn start(table: Table) -> Round {
        Round { table, turns: 1, tricks: 0 }
    }

    /// The hand of the player who is to play.
    pub open spec fn hand(self) -> Seq<Card> {
        self.table.hand(self.table.active)
    }

    /// The game is over. Either the player who is to play is down to one
    /// card, which is then never played, or the count of turns has reached
    /// `MAX_TURNS`.
    pub open spec fn halted(self) -> bool {
        self.hand().len() == 1 || self.turns >= MAX_TURNS
    }

    /// The round after the player who is to play has played one card.
    ///
    /// The card goes from the head of the hand to the pile. A penalty card
    /// sets what the opponent owes and passes the turn. Any other card
    /// passes the turn when nothing is owed, pays off one card of a larger
    /// debt, or, as the last card owed, hands the pile to the opponent.
    pub open spec fn step(self) -> Round
        recommends
            self.hand().len() >= 1,
    {
        let active = self.table.active;
        let card = self.hand()[0];
        let rest = self.hand().drop_first();
        let pile = self.table.pile.push(card);
        let hand1 = if active == Player::One {
            rest
        } else {
            self.table.hand1
        };
        let hand2 = if active == Player::Two {
            rest
        } else {
            self.table.hand2
        };
        let owed = self.table.penalty;
        let turns = self.turns + 1;
        if card.weight() > 0 {
            Round {
                table: Table { hand1, hand2, pile, penalty: card.weight(), active: active.other() },
                turns,
                tricks: if owed == 0 {
                    self.tricks + 1
                } else {
                    self.tricks
                },
            }
        } else if owed == 0 {
            Round {
                table: Table { hand1, hand2, pile, penalty: 0, active: active.other() },
                turns,
                tricks: self.tricks,
            }
        } else if owed == 1 {
            Round {
                table: Table {
                    hand1: if active == Player::Two {
                        hand1 + pile
                    } else {
                        hand1
                    },
                    hand2: if active == Player::One {
                        hand2 + pile
                    } else {
                        hand2
                    },
                    pile: Seq::empty(),
                    penalty: 0,
                    active: active.other(),
                },
                turns,
                tricks: self.tricks,
            }
        } else {
            Round {
                table: Table { hand1, hand2, pile, penalty: (owed - 1) as nat, active },
                turns,
                tricks: self.tricks,
            }
        }
    }

    /// The round after at most `fuel` further cards, stopping as soon as
    /// the game is over.
    pub open spec fn run(self, fuel: nat) -> Round
        decreases fuel,
    {
        if fuel == 0 || self.halted() {
            self
        } else {
            self.step().run((fuel - 1) as nat)
        }
    }

    /// The round in which the game ends. No game lasts longer than
    /// `MAX_TURNS` cards.
    pub open spec fn outcome(self) -> Round {
        self.run(MAX_TURNS as nat)
    }

    /// What holds at every point of a game that began on a playable table
    /// with no more than four cards owed.
    pub open spec fn sound(self) -> bool {
        &&& self.table.playable()
        &&& self.table.penalty <= 4
        &&& 1 <= self.turns <= MAX_TURNS
        &&& self.tricks < self.turns
    }
}

/// A game that begins on a playable table with no more than four cards
/// owed begins sound.
pub proof fn lemma_start_is_sound(table: Table)
    requires
        table.playable(),
        table.penalty <= 4,
    ensures
        Round::start(table).sound(),
{
}

/// Playing a card keeps the number of cards: both hands and the pile
/// together hold as many cards after the turn as before it.
pub proof fn lemma_step_keeps_cards(r: Round)
    requires
        r.hand().len() >= 1,
    ensures
        r.step().table.cards() == r.table.cards(),
{
}

/// Playing a card moves cards and neither makes nor loses any: both hands
/// and the pile together hold the same cards after the turn as before it,
/// each kind as often.
pub proof fn lemma_step_keeps_all_cards(r: Round)
    requires
        r.hand().len() >= 1,
    ensures
        r.step().table.all_cards() == r.table.all_cards(),
{
    broadcast use vstd::multiset::group_multiset_axioms;

    let hand = r.hand();
    let card = hand[0];
    let rest = hand.drop_first();
    let pile = r.table.pile.push(card);
    let other = r.table.hand(r.table.active.other());
    assert(hand == seq![card] + rest);
    vstd::seq_lib::lemma_multiset_commutative(seq![card], rest);
    assert(seq![card] == Seq::<Card>::empty().push(card));
    vstd::seq_lib::to_multiset_build(Seq::<Card>::empty(), card);
    Seq::<Card>::empty().to_multiset_ensures();
    vstd::seq_lib::to_multiset_build(r.table.pile, card);
    vstd::seq_lib::lemma_multiset_commutative(other, pile);
    assert(r.step().table.all_cards() =~= r.table.all_cards());
}

/// While the player who is to play holds more than one card, a turn
/// leaves each player with a card to play when their turn comes.
pub proof fn lemma_step_keeps_playable(r: Round)
    requires
        r.table.playable(),
        r.hand().len() != 1,
    ensures
        r.step().table.playable(),
{
}

/// A turn of a sound game that is not over leaves the game sound.
pub proof fn lemma_step_keeps_sound(r: Round)
    requires
        r.sound(),
        !r.halted(),
    ensures
        r.step().sound(),
{
}

/// At every point that a game reaches, however many cards have been
/// played, both hands and the pile together hold exactly the cards the
/// game began with: as many, and each kind as often.
pub proof fn lemma_run_keeps_cards(r: Round, fuel: nat)
    requires
        r.table.playable(),
    ensures
        r.run(fuel).table.playable(),
        r.run(fuel).table.cards() == r.table.cards(),
        r.run(fuel).table.all_cards() == r.table.all_cards(),
    decreases fuel,
{
    if fuel != 0 && !r.halted() {
        lemma_step_keeps_playable(r);
        lemma_step_keeps_cards(r);
        lemma_step_keeps_all_cards(r);
        lemma_run_keeps_cards(r.step(), (fuel - 1) as nat);
    }
}

/// However many cards are played, a sound game stays sound.
pub proof fn lemma_run_keeps_sound(r: Round, fuel: nat)
    requires
        r.sound(),
    ensures
        r.run(fuel).sound(),
    decreases fuel,
{
    if fuel != 0 && !r.halted() {
        lemma_step_keeps_sound(r);
        lemma_run_keeps_sound(r.step(), (fuel - 1) as nat);
    }
}

/// A player who is to play and holds exactly one card does not play it:
/// the game is over, and no further turn moves any card.
pub proof fn lemma_last_card_is_never_played(r: Round, fuel: nat)
    requires
        r.hand().len() == 1,
    ensures
        r.halted(),
        r.run(fuel) == r,
{
}

/// A penalty card sets what is owed to its own weight, whatever was owed
/// before, and passes the turn. It counts as a trick exactly when nothing
/// was owed.
pub proof fn lemma_penalty_card_sets_debt(r: Round)
    requires
        r.hand().len() >= 1,
        r.hand()[0].weight() > 0,
    ensures
        r.step().table.penalty == r.hand()[0].weight(),
        r.step().table.active == r.table.active.other(),
        r.step().table.pile == r.table.pile.push(r.hand()[0]),
        r.table.penalty > 0 ==> r.step().tricks == r.tricks,
        r.table.penalty == 0 ==> r.step().tricks == r.tricks + 1,
{
}

/// When one card is owed and the payer plays a card that is no penalty
/// card, the player who set the penalty takes the whole pile, that card
/// included, at the tail of their hand in the order in which it was
/// played. The pile is then empty, nothing is owed, and that player plays
/// next.
pub proof fn lemma_last_payment_is_captured(r: Round)
    requires
        r.hand().len() >= 1,
        r.hand()[0].weight() == 0,
        r.table.penalty == 1,
    ensures
        r.step().table.hand(r.table.active.other()) == r.table.hand(r.table.active.other())
            + r.table.pile.push(r.hand()[0]),
        r.step().table.hand(r.table.active) == r.hand().drop_first(),
        r.step().table.pile == Seq::<Card>::empty(),
        r.step().table.penalty == 0,
        r.step().table.active == r.table.active.other(),
        r.step().tricks == r.tricks,
{
}

/// A game that has ended stays as it is: more fuel changes nothing.
pub proof fn lemma_run_stops_when_halted(r: Round, n: nat, m: nat)
    requires
        n <= m,
        r.run(n).halted(),
    ensures
        r.run(m) == r.run(n),
    decreases n,
{
    if n != 0 && !r.halted() {
        lemma_run_stops_when_halted(r.step(), (n - 1) as nat, (m - 1) as nat);
    }
}

/// The end of a game depends on nothing but the round it began in: any
/// two plays that reach the end reach the same end.
pub proof fn lemma_halting_runs_agree(r: Round, n: nat, m: nat)
    requires
        r.run(n).halted(),
        r.run(m).halted(),
    ensures
        r.run(n) == r.run(m),
{
    if n <= m {
        lemma_run_stops_when_halted(r, n, m);
    } else {
        lemma_run_stops_when_halted(r, m, n);
    }
}

/// A game ends once it has been given enough cards to reach `MAX_TURNS`
/// turns, its count of turns never passes that number, and a game that
/// ends with the player who is to play holding more or less than one card
/// ends at exactly `MAX_TURNS` turns.
pub proof fn lemma_run_halts(r: Round, fuel: nat)
    requires
        1 <= r.turns <= MAX_TURNS,
        r.turns + fuel >= MAX_TURNS,
    ensures
        r.run(fuel).halted(),
        r.run(fuel).turns <= MAX_TURNS,
        r.run(fuel).hand().len() != 1 ==> r.run(fuel).turns == MAX_TURNS,
    decreases fuel,
{
    if !r.halted() {
        lemma_run_halts(r.step(), (fuel - 1) as nat);
    }
}

/// Every game ends, with no more than `MAX_TURNS` turns counted; one that
/// ends without a player down to their last card was cut off at exactly
/// `MAX_TURNS` turns. A game on a playable table ends with the cards it
/// began with.
pub proof fn lemma_every_game_ends(table: Table)
    ensures
        Round::start(table).outcome().halted(),
        Round::start(table).outcome().turns <= MAX_TURNS,
        Round::start(table).outcome().hand().len() != 1 ==> Round::start(table).outcome().turns
            == MAX_TURNS,
        table.playable() ==> Round::start(table).outcome().table.all_cards() == table.all_cards(),
{
    let r = Round::start(table);
    lemma_run_halts(r, MAX_TURNS as nat);
    if table.playable() {
        lemma_run_keeps_cards(r, MAX_TURNS as nat);
    }
}

} // verus!
