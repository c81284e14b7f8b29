//! A ranking engine that orders a collection of items by repeated pairwise
//! comparisons. A service holds the raw values and produces independent
//! sessions; a session wraps each value in an item with a unique identity and
//! a score, applies a pair-generation strategy once, and then serves the pairs
//! one at a time while the caller increments the winner's score.

pub mod item;
pub mod pair;
pub mod strategy;
mod rng;
pub mod ranking_service;
pub mod ranking_session;
pub mod strategies;
