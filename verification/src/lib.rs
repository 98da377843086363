//! Beggar My Neighbour: the two-player card game, played out card by card
//! on fixed-capacity queues, with every rule of a turn stated and proved.

pub mod card;
pub mod circlebuffer;
pub mod clearvec;
pub mod cursorslice;
pub mod deck;
pub mod game;
pub mod notation;
pub mod rules;
pub mod slicefifo;

pub use card::Card;
pub use deck::{new_deck, randomize_deck, swap_cards};
pub use game::{Game, GameStats, Winner};
pub use notation::DeckError;
pub use rules::{Player, DECK_SIZE, HAND_SIZE, MAX_TURNS};
