//! Rule engine of a four-player trick-taking Joker card game: cards and their
//! text codes, dealing, legal plays, trick resolution, scoring and the
//! progression of rounds.

pub mod card;
pub mod components;
pub mod deal;
pub mod laws;
pub mod play;
pub mod round;
pub mod table;
pub mod trick;
pub mod validity;
