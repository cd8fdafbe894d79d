//! Filters over stored games.

pub mod game;
pub mod id;
pub mod recommendation;
