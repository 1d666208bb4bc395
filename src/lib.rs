//! Game logic of a memory-matching card game.
//!
//! - `deck` deals pairs of symbols and shuffles them;
//! - `engine` turns clicks on cards into card states and counts the cards
//!   not matched yet;
//! - `layout` picks the grid's column count and the cards' width for a board;
//! - `session` ties them together across restarts, with the delayed win flag.
pub mod deck;
pub mod engine;
pub mod layout;
pub mod session;
