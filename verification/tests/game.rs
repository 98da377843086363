use beggar_my_neighbour::{Card, DeckError, Game, GameStats, Player, Winner, MAX_TURNS};

fn assert_game(game: &str, turns: usize, tricks: usize) {
    let game = &mut Game::from_string(game);

    let stats = game.play();

    assert_eq!(stats.turns, turns);
    assert_eq!(stats.tricks, tricks);
}

fn cards(text: &str) -> Vec<Card> {
    text.chars().map(Card::from_char).collect()
}

fn on_table(game: &Game) -> usize {
    game.hand(Player::One).len() + game.hand(Player::Two).len() + game.pile().len()
}

fn count(cards: &[Card], kind: Card) -> usize {
    cards.iter().filter(|card| **card == kind).count()
}

#[test]
fn world_record_game() {
    let record =
        &mut Game::from_string("---AJ--Q---------QAKQJJ-QK/-----A----KJ-K--------A---");

    let stats = record.play();

    assert_eq!(stats.turns, 8_344);
    assert_eq!(stats.tricks, 1_164);
}

#[test]
fn world_record_games() {
    assert_game(
        "---AJ--Q---------QAKQJJ-QK/-----A----KJ-K--------A---",
        8_344,
        1_164,
    );
    assert_game(
        "K-KK----K-A-----JAA--Q--J-/---Q---Q-J-----J------AQ--",
        7_157,
        1_007,
    );
    assert_game(
        "A-QK------Q----KA-----J---/-JAK----A--Q----J---QJ--K-",
        6_913,
        960,
    )
}

#[test]
fn record_game_leaves_every_card_on_the_table() {
    let mut game = Game::from_string("---AJ--Q---------QAKQJJ-QK/-----A----KJ-K--------A---");
    assert_eq!(game.cards(), 52);
    game.play();
    assert_eq!(game.hand(Player::One), cards("-"));
    assert_eq!(
        game.hand(Player::Two),
        cards("K-QK--AK-------J---JJ----Q--J-K---Q-QA----")
    );
    assert_eq!(game.pile(), cards("---A-A---"));
    assert_eq!(game.penalty(), 1);
    assert_eq!(game.active(), Player::One);
    assert_eq!(on_table(&game), 52);
    assert_eq!(game.cards(), 52);
    assert_eq!(game.winner(), Winner::P2);
}

#[test]
fn played_game_holds_the_cards_it_began_with() {
    let mut game = Game::from_string("K-KK----K-A-----JAA--Q--J-/---Q---Q-J-----J------AQ--");
    game.play();
    let mut all = game.hand(Player::One);
    all.extend(game.hand(Player::Two));
    all.extend(game.pile());
    assert_eq!(count(&all, Card::Ace), 4);
    assert_eq!(count(&all, Card::King), 4);
    assert_eq!(count(&all, Card::Queen), 4);
    assert_eq!(count(&all, Card::Jack), 4);
    assert_eq!(count(&all, Card::Other), 36);
}

#[test]
fn third_record_game_is_won_by_the_first_player() {
    let mut game = Game::from_string("A-QK------Q----KA-----J---/-JAK----A--Q----J---QJ--K-");
    let stats = game.play();
    assert_eq!(stats, GameStats { turns: 6_913, tricks: 960 });
    assert_eq!(game.winner(), Winner::P1);
    assert_eq!(game.active(), Player::Two);
    assert_eq!(game.hand(Player::Two), cards("-"));
    assert_eq!(game.pile(), cards("A-"));
    assert_eq!(game.penalty(), 3);
}

#[test]
fn replaying_a_description_gives_the_same_result() {
    let text = "K-KK----K-A-----JAA--Q--J-/---Q---Q-J-----J------AQ--";
    let mut first = Game::from_string(text);
    let mut second = Game::from_string(text);
    let a = first.play();
    let b = second.play();
    assert_eq!(a, b);
    assert_eq!(first.winner(), second.winner());
    assert_eq!(first.stringified(), second.stringified());
}

#[test]
fn a_clone_plays_as_the_game_it_was_made_from() {
    let mut game = Game::from_string("J-/--");
    let mut copy = game.clone();
    assert_eq!(game.play(), copy.play());
    assert_eq!(game.to_string(), copy.to_string());
    assert_eq!(game.active(), copy.active());
}

#[test]
fn last_card_is_never_played() {
    // The first player is down to one card at once: nothing moves.
    let mut game = Game::from_string("A/--");
    let stats = game.play();
    assert_eq!(stats, GameStats { turns: 1, tricks: 0 });
    assert_eq!(game.hand(Player::One), cards("A"));
    assert_eq!(game.hand(Player::Two), cards("--"));
    assert!(game.pile().is_empty());
    assert_eq!(game.winner(), Winner::P2);
}

#[test]
fn a_single_card_against_an_empty_hand_is_a_finished_game() {
    let mut game = Game::from_string("-/");
    assert!(game.is_playable());
    assert_eq!(game.play(), GameStats { turns: 1, tricks: 0 });
    assert_eq!(game.hand(Player::One), cards("-"));
    assert_eq!(game.winner(), Winner::P2);
}

#[test]
fn game_without_penalty_cards_alternates_until_one_card_is_left() {
    let mut game = Game::from_string("--/--");
    let stats = game.play();
    assert_eq!(stats, GameStats { turns: 3, tricks: 0 });
    assert_eq!(game.hand(Player::One), cards("-"));
    assert_eq!(game.hand(Player::Two), cards("-"));
    assert_eq!(game.pile(), cards("--"));
    // Both are down to one card; the first player is the one to play.
    assert_eq!(game.active(), Player::One);
    assert_eq!(game.winner(), Winner::P2);
}

#[test]
fn winner_is_the_opponent_of_the_player_who_cannot_go_on() {
    // The second player pays for the ace and is down to one card while
    // still to play; the first player holds one card too.
    let mut game = Game::from_string("A-/--");
    let stats = game.play();
    assert_eq!(stats, GameStats { turns: 3, tricks: 1 });
    assert_eq!(game.hand(Player::One), cards("-"));
    assert_eq!(game.hand(Player::Two), cards("-"));
    assert_eq!(game.pile(), cards("A-"));
    assert_eq!(game.penalty(), 3);
    assert_eq!(game.active(), Player::Two);
    assert_eq!(game.winner(), Winner::P1);
}

#[test]
fn capture_ends_a_short_game() {
    let mut game = Game::from_string("J-/--");
    let stats = game.play();
    assert_eq!(stats, GameStats { turns: 4, tricks: 1 });
    assert_eq!(game.hand(Player::One), cards("J-"));
    assert_eq!(game.hand(Player::Two), cards("-"));
    assert_eq!(game.pile(), cards("-"));
    assert_eq!(game.winner(), Winner::P1);
}

#[test]
fn game_may_end_while_a_card_is_owed() {
    let mut game = Game::from_string("---/-J-");
    let stats = game.play();
    assert_eq!(stats, GameStats { turns: 5, tricks: 1 });
    assert_eq!(game.pile(), cards("---J"));
    assert_eq!(game.penalty(), 1);
    assert_eq!(game.winner(), Winner::P2);
}

#[test]
fn endless_game_is_cut_off_when_the_count_of_turns_reaches_its_cap() {
    let mut game = Game::from_string("J--/-J-");
    let stats = game.play();
    assert_eq!(stats.turns, 100_000);
    assert_eq!(stats.turns, MAX_TURNS);
    assert_eq!(stats.tricks, 33_333);
    assert_eq!(game.hand(Player::One), cards("-J-"));
    assert_eq!(game.hand(Player::Two), cards("J-"));
    assert_eq!(game.pile(), cards("-"));
    assert_eq!(game.penalty(), 0);
    assert_eq!(game.active(), Player::Two);
    assert_eq!(game.winner(), Winner::Infinite);
    assert_eq!(on_table(&game), 6);
}

#[test]
fn another_endless_game_is_cut_off() {
    let mut game = Game::from_string("A-J-/-J--");
    let stats = game.play();
    assert_eq!(stats, GameStats { turns: 100_000, tricks: 25_000 });
    assert_eq!(game.hand(Player::One), cards("A-J-"));
    assert_eq!(game.hand(Player::Two), cards("--J-"));
    assert!(game.pile().is_empty());
    assert_eq!(game.winner(), Winner::Infinite);
}

#[test]
fn penalty_card_on_neutral_table_starts_a_trick() {
    let mut game = Game::from_string("Q-/--");
    let mut stats = GameStats { turns: 1, tricks: 0 };
    assert_eq!(game.active(), Player::One);
    game.turn(&mut stats);
    assert_eq!(game.active(), Player::Two);
    assert_eq!(stats, GameStats { turns: 2, tricks: 1 });
    assert_eq!(game.penalty(), 2);
    assert_eq!(game.pile(), cards("Q"));
    assert_eq!(game.hand(Player::One), cards("-"));
}

#[test]
fn penalty_card_played_while_paying_resets_the_debt_without_a_trick() {
    let mut game = Game::from_string("A--/-K--");
    let mut stats = GameStats { turns: 1, tricks: 0 };
    game.turn(&mut stats); // ace: four owed by the second player
    assert_eq!((game.active(), game.penalty(), stats.tricks), (Player::Two, 4, 1));
    game.turn(&mut stats); // pays one: three owed, same payer
    assert_eq!((game.active(), game.penalty(), stats.tricks), (Player::Two, 3, 1));
    game.turn(&mut stats); // king: three owed by the first player
    assert_eq!((game.active(), game.penalty(), stats.tricks), (Player::One, 3, 1));
    assert_eq!(stats.turns, 4);
    assert_eq!(game.pile(), cards("A-K"));
}

#[test]
fn plain_card_with_nothing_owed_passes_the_turn() {
    let mut game = Game::from_string("--/--");
    let mut stats = GameStats { turns: 1, tricks: 0 };
    game.turn(&mut stats);
    assert_eq!(game.active(), Player::Two);
    assert_eq!(stats, GameStats { turns: 2, tricks: 0 });
    assert_eq!(game.penalty(), 0);
    assert_eq!(game.pile(), cards("-"));
}

#[test]
fn last_card_owed_hands_the_pile_to_the_setter() {
    let mut game = Game::from_string("-JK/--A");
    let mut stats = GameStats { turns: 1, tricks: 0 };
    game.turn(&mut stats); // plain card
    game.turn(&mut stats); // plain card
    game.turn(&mut stats); // jack: one owed by the second player
    assert_eq!((game.active(), game.penalty()), (Player::Two, 1));
    assert_eq!(game.pile(), cards("--J"));
    game.turn(&mut stats); // the payment: the first player captures
    assert_eq!(game.active(), Player::One);
    assert_eq!(game.penalty(), 0);
    assert!(game.pile().is_empty());
    assert_eq!(game.hand(Player::One), cards("K--J-"));
    assert_eq!(game.hand(Player::Two), cards("A"));
    assert_eq!(stats, GameStats { turns: 5, tricks: 1 });
    assert_eq!(game.cards(), 6);
}

#[test]
fn second_player_captures_too() {
    let mut game = Game::from_string("--/J--");
    let mut stats = GameStats { turns: 1, tricks: 0 };
    game.turn(&mut stats);
    game.turn(&mut stats); // jack by the second player
    assert_eq!((game.active(), game.penalty()), (Player::One, 1));
    game.turn(&mut stats);
    assert_eq!(game.active(), Player::Two);
    assert_eq!(game.hand(Player::Two), cards("---J-"));
    assert!(game.hand(Player::One).is_empty());
    assert!(!game.is_over(&stats));
}

#[test]
fn game_is_over_when_the_player_to_move_holds_one_card() {
    let game = Game::from_string("-/--");
    assert!(game.is_over(&GameStats { turns: 1, tricks: 0 }));
    let other = Game::from_string("--/-");
    assert!(!other.is_over(&GameStats { turns: 1, tricks: 0 }));
}

#[test]
fn game_is_over_when_the_count_of_turns_is_at_its_cap() {
    let game = Game::from_string("--/--");
    assert!(!game.is_over(&GameStats { turns: MAX_TURNS - 1, tricks: 0 }));
    assert!(game.is_over(&GameStats { turns: MAX_TURNS, tricks: 0 }));
    assert!(game.is_over(&GameStats { turns: MAX_TURNS + 1, tricks: 0 }));
}

#[test]
fn winner_before_play_is_undecided() {
    let game = Game::from_string("---/---");
    assert_eq!(game.winner(), Winner::Infinite);
    // Only the player who is to play can have lost.
    let waiting = Game::from_string("---/-");
    assert_eq!(waiting.winner(), Winner::Infinite);
}

#[test]
fn description_without_separator_is_faulty() {
    assert_eq!(Game::fault("AK--"), Some(DeckError::Sections));
    assert_eq!(Game::fault("AKQJ"), Some(DeckError::Sections));
    assert_eq!(Game::fault(""), Some(DeckError::Sections));
}

#[test]
fn description_with_three_hands_is_faulty() {
    assert_eq!(Game::fault("A-/K-/Q-"), Some(DeckError::Sections));
    assert_eq!(Game::fault("A/K/Q"), Some(DeckError::Sections));
    assert_eq!(Game::fault("//"), Some(DeckError::Sections));
}

#[test]
fn wrong_number_of_hands_is_found_before_a_wrong_character() {
    assert_eq!(Game::fault("x/K/Q"), Some(DeckError::Sections));
    assert_eq!(Game::fault("xyz"), Some(DeckError::Sections));
}

#[test]
fn unknown_character_is_faulty() {
    assert_eq!(Game::fault("Ak/--"), Some(DeckError::Character));
    assert_eq!(Game::fault("AK/Q2"), Some(DeckError::Character));
    assert_eq!(Game::fault("a/-"), Some(DeckError::Character));
    assert_eq!(Game::fault("- /-"), Some(DeckError::Character));
    assert_eq!(Game::fault("-/\u{e9}"), Some(DeckError::Character));
}

#[test]
fn hand_of_more_cards_than_a_deck_is_faulty() {
    let whole = "-".repeat(52);
    let longer = "-".repeat(53);
    assert_eq!(Game::fault(&format!("{whole}/")), None);
    assert_eq!(Game::fault(&format!("/{whole}")), None);
    assert_eq!(Game::fault(&format!("{whole}/{whole}")), None);
    assert_eq!(Game::fault(&format!("{longer}/-")), Some(DeckError::Capacity));
    assert_eq!(Game::fault(&format!("-/{longer}")), Some(DeckError::Capacity));
}

#[test]
fn wrong_character_is_found_before_too_many_cards() {
    let long = "-".repeat(60);
    assert_eq!(Game::fault(&format!("{long}/x")), Some(DeckError::Character));
}

#[test]
fn sound_descriptions_have_no_fault() {
    assert_eq!(Game::fault("/"), None);
    assert_eq!(Game::fault("AKQJ-/-"), None);
    assert_eq!(
        Game::fault("---AJ--Q---------QAKQJJ-QK/-----A----KJ-K--------A---"),
        None
    );
}

#[test]
fn hands_that_together_hold_more_than_a_deck_are_read() {
    let first = "A-K-Q-J-".repeat(5);
    let second = "--J".repeat(14);
    let text = format!("{first}/{second}");
    let game = Game::from_string(&text);
    assert_eq!(game.hand(Player::One), cards(&first));
    assert_eq!(game.hand(Player::Two), cards(&second));
    assert!(game.pile().is_empty());
    assert_eq!(game.penalty(), 0);
    assert_eq!(game.active(), Player::One);
    assert_eq!(game.cards(), 82);
    assert_eq!(game.stringified(), text);
    let whole = "Q".repeat(52);
    let full = Game::from_string(&format!("{whole}/{whole}"));
    assert_eq!(full.hand(Player::One).len(), 52);
    assert_eq!(full.hand(Player::Two), cards(&whole));
    assert_eq!(full.cards(), 104);
}

#[test]
fn hands_need_not_be_of_equal_length() {
    let game = Game::from_string("AK/-");
    assert_eq!(game.hand(Player::One), vec![Card::Ace, Card::King]);
    assert_eq!(game.hand(Player::Two), vec![Card::Other]);
    assert!(game.pile().is_empty());
    assert_eq!(game.penalty(), 0);
    assert_eq!(game.active(), Player::One);
}

#[test]
fn empty_hands_are_read_but_cannot_be_played() {
    let game = Game::from_string("/");
    assert!(game.hand(Player::One).is_empty());
    assert!(game.hand(Player::Two).is_empty());
    assert!(!game.is_playable());
    assert!(!Game::from_string("--/").is_playable());
    assert!(!Game::from_string("/--").is_playable());
    assert!(Game::from_string("-/-").is_playable());
}

#[test]
fn game_is_written_as_it_was_read() {
    let text = "---AJ--Q---------QAKQJJ-QK/-----A----KJ-K--------A---";
    let game = Game::from_string(text);
    assert_eq!(game.stringified(), text);
    assert_eq!(
        game.to_string(),
        "p1: ---AJ--Q---------QAKQJJ-QK\np2: -----A----KJ-K--------A---"
    );
}

#[test]
fn written_game_shows_the_debt_and_the_pile() {
    let mut game = Game::from_string("---/-J-");
    game.play();
    assert_eq!(game.stringified(), "-/-+1");
    assert_eq!(game.to_string(), "p1: -\np2: -\nmiddle: ---J");
    let mut other = Game::from_string("A-/--");
    let mut stats = GameStats { turns: 1, tricks: 0 };
    other.turn(&mut stats);
    assert_eq!(other.stringified(), "-/--+4");
}
