//! The records that the catalog stores.

pub mod game;
pub mod recommendation;
pub mod tag;
