//! A two-player grid-based guessing game: each side owns a square board
//! seeded with randomly placed single-cell ships, and the sides alternately
//! guess coordinates on the opponent's board until one side's ships are all
//! located.
//!
//! The game state machine lives here: board representation, ship placement,
//! guess resolution, the opponent's guessing strategy, turn alternation and
//! termination detection, together with the parsing of configuration and
//! coordinate input. Console I/O itself is left to the embedding program.

pub mod board;
pub mod game;
pub mod input;
pub mod placement;
pub mod random;
pub mod strategy;
