//! Go Fish for one human and one randomized computer opponent: cards and
//! their order, decks, players, and the turn engine.

pub mod card;
pub mod deck;
pub mod go_fish;
pub mod order;
pub mod pairing;
pub mod player;
pub mod random;
pub mod shuffling;
pub mod standard;
pub mod text;
pub mod utils;

pub use card::{Card, CardType, Suit};
pub use deck::Deck;
pub use go_fish::GoFish;
pub use player::Player;
