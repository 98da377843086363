//! The full deck of 52 cards, and shuffling it.

use crate::card::Card;
use crate::rules::DECK_SIZE;
use vstd::prelude::*;

verus! {

/// The card at place `i` of an unshuffled deck: four aces, four kings, four
/// queens and four jacks, in that order, and then the 36 other cards.
pub open spec fn fresh_card(i: int) -> Card {
    if i < 4 {
        Card::Ace
    } else if i < 8 {
        Card::King
    } else if i < 12 {
        Card::Queen
    } else if i < 16 {
        Card::Jack
    } else {
        Card::Other
    }
}

/// The unshuffled deck.
pub open spec fn fresh_deck() -> Seq<Card> {
    Seq::new(DECK_SIZE as nat, |i: int| fresh_card(i))
}

/// A run of `n` cards of the same kind.
pub open spec fn run_of(card: Card, n: nat) -> Seq<Card> {
    Seq::new(n, |i: int| card)
}

/// A run of `n` cards of one kind holds `n` cards of that kind and none of
/// any other.
pub proof fn lemma_run_counts(card: Card, n: nat, other: Card)
    ensures
        run_of(card, n).to_multiset().count(other) == if other == card {
            n
        } else {
            0
        },
    decreases n,
{
    broadcast use vstd::multiset::group_multiset_axioms;

    if n == 0 {
        run_of(card, n).to_multiset_ensures();
        assert(run_of(card, n).to_multiset().len() == 0);
    } else {
        let shorter = run_of(card, (n - 1) as nat);
        lemma_run_counts(card, (n - 1) as nat, other);
        assert(run_of(card, n) =~= shorter.push(card));
        vstd::seq_lib::to_multiset_build(shorter, card);
    }
}

/// The unshuffled deck holds four aces, four kings, four queens, four
/// jacks and 36 other cards.
pub proof fn lemma_fresh_deck_counts()
    ensures
        fresh_deck().len() == DECK_SIZE,
        fresh_deck().to_multiset().count(Card::Ace) == 4,
        fresh_deck().to_multiset().count(Card::King) == 4,
        fresh_deck().to_multiset().count(Card::Queen) == 4,
        fresh_deck().to_multiset().count(Card::Jack) == 4,
        fresh_deck().to_multiset().count(Card::Other) == 36,
{
    broadcast use vstd::multiset::group_multiset_axioms;

    let aces = run_of(Card::Ace, 4);
    let kings = run_of(Card::King, 4);
    let queens = run_of(Card::Queen, 4);
    let jacks = run_of(Card::Jack, 4);
    let others = run_of(Card::Other, 36);
    assert(fresh_deck() =~= aces + kings + queens + jacks + others);
    vstd::seq_lib::lemma_multiset_commutative(aces, kings);
    vstd::seq_lib::lemma_multiset_commutative(aces + kings, queens);
    vstd::seq_lib::lemma_multiset_commutative(aces + kings + queens, jacks);
    vstd::seq_lib::lemma_multiset_commutative(aces + kings + queens + jacks, others);
    assert forall|card: Card|
        fresh_deck().to_multiset().count(card) == #[trigger] fresh_card_count(card) by {
        lemma_run_counts(Card::Ace, 4, card);
        lemma_run_counts(Card::King, 4, card);
        lemma_run_counts(Card::Queen, 4, card);
        lemma_run_counts(Card::Jack, 4, card);
        lemma_run_counts(Card::Other, 36, card);
    }
    assert(fresh_card_count(Card::Ace) == 4);
    assert(fresh_card_count(Card::King) == 4);
    assert(fresh_card_count(Card::Queen) == 4);
    assert(fresh_card_count(Card::Jack) == 4);
    assert(fresh_card_count(Card::Other) == 36);
}

/// The number of cards of one kind in a full deck.
pub open spec fn fresh_card_count(card: Card) -> nat {
    match card {
        Card::Other => 36,
        _ => 4,
    }
}

/// A deck laid out in order: aces, kings, queens, jacks, then the rest.
pub fn new_deck() -> (deck: [Card; DECK_SIZE])
    ensures
        deck@ == fresh_deck(),
{
    let mut deck = [Card::Other;DECK_SIZE];
    let mut i: usize = 0;
    while i < 16
        invariant
            i <= 16,
            forall|j: int| 0 <= j < i ==> deck@[j] == fresh_card(j),
            forall|j: int| i <= j < DECK_SIZE ==> deck@[j] == Card::Other,
        decreases 16 - i,
    {
        deck[i] = if i < 4 {
            Card::Ace
        } else if i < 8 {
            Card::King
        } else if i < 12 {
            Card::Queen
        } else {
            Card::Jack
        };
        i += 1;
    }
    deck
}

/// The cards of `s` with those at places `i` and `j` exchanged.
pub open spec fn swapped(s: Seq<Card>, i: int, j: int) -> Seq<Card> {
    s.update(i, s[j]).update(j, s[i])
}

/// The draws that one shuffle makes: one for each place of the deck from
/// the last down to the second, each of them a place at or before the one
/// it is drawn for.
pub open spec fn draws_fit(draws: Seq<int>) -> bool {
    &&& draws.len() == DECK_SIZE - 1
    &&& forall|k: int| 0 <= k < draws.len() ==> 0 <= #[trigger] draws[k] <= DECK_SIZE - 1 - k
}

/// The deck `s` after the exchanges that `draws` call for: the first draw
/// changes places with the last card of the deck, the next one with the
/// card before it, and so on towards the front.
pub open spec fn shuffled(s: Seq<Card>, draws: Seq<int>) -> Seq<Card>
    decreases draws.len(),
{
    if draws.len() == 0 {
        s
    } else {
        swapped(shuffled(s, draws.drop_last()), DECK_SIZE - draws.len(), draws.last())
    }
}

/// Exchanges the cards at places `i` and `j` of the deck.
pub fn swap_cards(deck: &mut [Card; DECK_SIZE], i: usize, j: usize)
    requires
        i < DECK_SIZE,
        j < DECK_SIZE,
    ensures
        final(deck)@ == swapped(old(deck)@, i as int, j as int),
        final(deck)@.to_multiset() == old(deck)@.to_multiset(),
{
    let a = deck[i];
    let b = deck[j];
    deck[i] = b;
    deck[j] = a;
    proof {
        broadcast use vstd::multiset::group_multiset_axioms;

        let s0 = old(deck)@;
        let s1 = s0.update(i as int, b);
        assert(deck@ == s1.update(j as int, a));
        assert(s0[i as int] == a && s1[j as int] == b);
        s0.to_multiset_ensures();
        assert(s0.contains(a));
        vstd::seq_lib::to_multiset_update(s0, i as int, b);
        vstd::seq_lib::to_multiset_update(s1, j as int, a);
        assert(deck@.to_multiset() =~= s0.to_multiset());
    }
}

/// Draws a place of the deck at random, with `fastrand::usize` over the
/// places from 0 up to and including `upper`. All that is claimed of the
/// draw is that it lies in that range: `fastrand` computes it as 0 plus a
/// number below `upper + 1`, or, when the range is all of `usize`, as any
/// `usize`. Two draws need not agree.
#[verifier::external_body]
fn random_index(upper: usize) -> (index: usize)
    ensures
        index <= upper,
{
    fastrand::usize(0..=upper)
}

/// Shuffles the deck in place: from the last place down to the second,
/// each card changes places with one drawn at random from those at or
/// before it. The deck that results is the one that these exchanges make
/// of the deck as it was, for the draws that were made; whatever they
/// were, it holds the same cards.
pub fn randomize_deck(deck: &mut [Card; DECK_SIZE])
    ensures
        exists|draws: Seq<int>| #[trigger]
            draws_fit(draws) && final(deck)@ == shuffled(old(deck)@, draws),
        final(deck)@.to_multiset() == old(deck)@.to_multiset(),
{
    let ghost mut draws: Seq<int> = Seq::empty();
    let mut i: usize = DECK_SIZE - 1;
    while i >= 1
        invariant
            i < DECK_SIZE,
            draws.len() == DECK_SIZE - 1 - i,
            forall|k: int| 0 <= k < draws.len() ==> 0 <= #[trigger] draws[k] <= DECK_SIZE - 1 - k,
            deck@ == shuffled(old(deck)@, draws),
            deck@.to_multiset() == old(deck)@.to_multiset(),
        decreases i,
    {
        let j = random_index(i);
        swap_cards(deck, i, j);
        proof {
            let made = draws.push(j as int);
            assert(made.drop_last() == draws);
            assert(made.last() == j);
            draws = made;
        }
        i -= 1;
    }
    proof {
        assert(draws_fit(draws));
    }
}

} // verus!
