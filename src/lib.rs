//! The core of a wagering service: users create bets, other users stake for or
//! against them, bets are closed and paid out with every stake settled exactly once
//! into its user's running score, and users send, accept or reject friend requests.
//!
//! `model` holds the rows, `score`, `bet` and `friendship` the transitions of a
//! single row, `store` the tables and the operations over them, `user` the same
//! operations seen from a user, a bet or a stake, and `laws` what holds across
//! several operations.

pub mod bet;
pub mod friendship;
pub mod laws;
pub mod model;
pub mod score;
pub mod store;
pub mod user;
