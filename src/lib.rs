//! A multi-client quiz game: the question bank, the scoring rule and the
//! session coordinator that owns all game state and decides what every
//! participant is told.

pub mod ids;
pub mod questions;
pub mod scoring;
pub mod messages;
pub mod session;
pub mod standings;
pub mod game;
pub mod widgets;
pub mod client;
