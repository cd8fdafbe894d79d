//! An in-memory catalog of games with interned tags and daily recommendation
//! votes, and the filter queries that run over it.
//!
//! Every executable function carries a contract over the mathematical views of
//! the data it touches, and Verus proves each body against its contract.
#![allow(non_snake_case)]

pub mod arith;
pub mod database;
pub mod entity;
pub mod histogram;
pub mod query;
pub mod root;
