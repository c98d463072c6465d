//! Core of a Doctor-Who trivia chat bot: a question store, a per-guild
//! point ledger, and the round state machine that matches replies against
//! answers and rewards correct ones.
//!
//! Everything that decides or computes lives here and is verified; message
//! delivery, persistence and HTTP lookups are external collaborators that a
//! surrounding application drives.

pub mod commands;
pub mod episode;
mod errors;
pub mod ledger;
pub mod round;
pub mod store;
pub mod text;

pub use errors::TriviaError;
