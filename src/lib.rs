//! Keeps a rolling window of shell history and the user's current focus
//! (a primary objective and side quests), and drives the bounded tool-using
//! conversation that updates that focus.

pub mod cli;
pub mod stayfocused;
pub mod tools;
pub mod session;
