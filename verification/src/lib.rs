//! Engine of a team trivia game: a roster of teams, a pool of questions and
//! the phases a match runs through, each with a verified contract.

pub mod chance;
pub mod definition;
pub mod error;
pub mod game;
pub mod output;
pub mod phase;
pub mod preload;
pub mod quiz;
pub mod settings;
pub mod team;
pub mod text;
