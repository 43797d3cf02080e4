//! Rule engine of a solitaire card game played on a cross-shaped grid: draw a
//! card, place it by the placement rules, and let the cannon cells fire at
//! the royals that guard the edge of the board.

pub mod board;
pub mod card;
pub mod error;
pub mod game;
pub mod pile;
pub mod position;
pub mod screen;

pub use board::Board;
pub use card::{Card, Suit};
pub use error::GameError;
pub use game::Game;
pub use pile::Pile;
pub use position::BoardPosition;
