use beggar_my_neighbour::deck::{new_deck, randomize_deck, swap_cards};
use beggar_my_neighbour::{Card, Game, Player, DECK_SIZE, HAND_SIZE};

fn count(cards: &[Card], kind: Card) -> usize {
    cards.iter().filter(|card| **card == kind).count()
}

#[test]
fn penalty_weights() {
    assert_eq!(Card::Ace.penalty(), 4);
    assert_eq!(Card::King.penalty(), 3);
    assert_eq!(Card::Queen.penalty(), 2);
    assert_eq!(Card::Jack.penalty(), 1);
    assert_eq!(Card::Other.penalty(), 0);
}

#[test]
fn characters_name_cards() {
    assert_eq!(Card::from_char('A'), Card::Ace);
    assert_eq!(Card::from_char('K'), Card::King);
    assert_eq!(Card::from_char('Q'), Card::Queen);
    assert_eq!(Card::from_char('J'), Card::Jack);
    assert_eq!(Card::from_char('-'), Card::Other);
    for c in ['A', 'K', 'Q', 'J', '-'] {
        assert!(Card::is_card_char(c));
    }
}

#[test]
fn other_characters_name_no_card() {
    for c in ['a', 'k', '0', '2', ' ', '/', 'X', '_', '+', '\u{2014}'] {
        assert!(!Card::is_card_char(c));
    }
}

#[test]
fn card_is_read_back_from_its_character() {
    for card in [Card::Ace, Card::King, Card::Queen, Card::Jack, Card::Other] {
        assert!(Card::is_card_char(card.to_char()));
        assert_eq!(Card::from_char(card.to_char()), card);
        assert_eq!(card.as_str(), card.to_char().to_string());
    }
    assert_eq!(Card::Ace.to_char(), 'A');
    assert_eq!(Card::Other.as_str(), "-");
}

#[test]
fn players_are_each_other_s_opponents() {
    assert_eq!(Player::One.opponent(), Player::Two);
    assert_eq!(Player::Two.opponent(), Player::One);
}

#[test]
fn new_deck_is_laid_out_in_order() {
    let deck = new_deck();
    assert_eq!(deck.len(), 52);
    assert_eq!(DECK_SIZE, 52);
    assert_eq!(HAND_SIZE, 26);
    assert!(deck[0..4].iter().all(|c| *c == Card::Ace));
    assert!(deck[4..8].iter().all(|c| *c == Card::King));
    assert!(deck[8..12].iter().all(|c| *c == Card::Queen));
    assert!(deck[12..16].iter().all(|c| *c == Card::Jack));
    assert!(deck[16..].iter().all(|c| *c == Card::Other));
}

#[test]
fn swap_exchanges_two_places() {
    let mut deck = new_deck();
    swap_cards(&mut deck, 0, 51);
    assert_eq!(deck[0], Card::Other);
    assert_eq!(deck[51], Card::Ace);
    assert_eq!(deck[1], Card::Ace);
    swap_cards(&mut deck, 5, 5);
    assert_eq!(deck[5], Card::King);
    swap_cards(&mut deck, 51, 4);
    assert_eq!(deck[51], Card::King);
    assert_eq!(deck[4], Card::Ace);
}

#[test]
fn shuffled_deck_holds_the_same_cards() {
    let mut deck = new_deck();
    for _ in 0..20 {
        randomize_deck(&mut deck);
        assert_eq!(count(&deck, Card::Ace), 4);
        assert_eq!(count(&deck, Card::King), 4);
        assert_eq!(count(&deck, Card::Queen), 4);
        assert_eq!(count(&deck, Card::Jack), 4);
        assert_eq!(count(&deck, Card::Other), 36);
    }
}

#[test]
fn shuffling_moves_cards() {
    // Twenty shuffles in a row that all leave the deck in order would
    // mean that no card is ever drawn from elsewhere.
    let fresh = new_deck();
    let mut moved = false;
    for _ in 0..20 {
        let mut deck = new_deck();
        randomize_deck(&mut deck);
        moved = moved || deck != fresh;
    }
    assert!(moved);
}

#[test]
fn random_game_deals_the_shuffled_deck_in_halves() {
    let mut deck = new_deck();
    let mut game = Game::random(&mut deck);
    assert_eq!(game.hand(Player::One), deck[..26].to_vec());
    assert_eq!(game.hand(Player::Two), deck[26..].to_vec());
    assert!(game.pile().is_empty());
    assert_eq!(game.penalty(), 0);
    assert_eq!(count(&deck, Card::Other), 36);
    assert_eq!(game.active(), Player::One);
    assert_eq!(game.cards(), 52);
    assert!(game.is_playable());
    let stats = game.play();
    assert!(stats.turns >= 1 && stats.tricks < stats.turns);
    assert_eq!(
        game.hand(Player::One).len() + game.hand(Player::Two).len() + game.pile().len(),
        52
    );
}

#[test]
fn shuffle_is_the_exchanges_that_its_draws_call_for() {
    // The same seed gives the same draws: make them by hand, last place
    // first, and exchange the cards as each draw says.
    let mut by_hand = new_deck();
    fastrand::seed(7);
    for place in (1..DECK_SIZE).rev() {
        let draw = fastrand::usize(0..=place);
        assert!(draw <= place);
        swap_cards(&mut by_hand, place, draw);
    }
    let mut shuffled = new_deck();
    fastrand::seed(7);
    randomize_deck(&mut shuffled);
    assert_eq!(shuffled, by_hand);
    assert_ne!(shuffled, new_deck());
}
