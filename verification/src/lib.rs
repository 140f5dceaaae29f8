//! Verified core of a market-microstructure feature engine.
//!
//! The crate keeps live in-memory models of an exchange's limit-order-book
//! and trade-tape feeds and computes microstructure features over them:
//! a two-sided sorted order book with cached best levels, a bounded trades
//! log with incrementally maintained aggregates, a rolling age-weighted
//! order-flow tracker, and the batching logic of the analytics loop.
//! All prices and quantities use an exact fixed-point decimal type.

pub mod book_side;
pub mod clock;
pub mod features;
pub mod fsm;
pub mod orderbook;
pub mod flow;
pub mod trades;
pub mod wire;
pub mod dec;

use vstd::prelude::*;

verus! {

} // verus!
