//! An in-memory limit order book for one instrument: price-sorted ladders of
//! bids and asks, running totals, ladders grouped into buckets, and the views
//! that a display reads, all over exact decimals.

pub mod book;
pub mod book_utils;
pub mod codec;
pub mod decimal;
pub mod host;
pub mod invariants;
pub mod ladder;
pub mod level;
pub mod messages;
pub mod snapshot;
pub mod views;
