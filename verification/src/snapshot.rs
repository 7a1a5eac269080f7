//! The shapes in which a book is handed to a display.

use crate::decimal::Decimal;
use crate::level::LevelView;
use vstd::prelude::*;

verus! {

/// One row of a display: a price with a size and a value, plain or summed.
#[derive(Debug)]
pub struct SnapshotLevel {
    pub relative_size: i64,
    pub price: Decimal,
    pub total_size: Decimal,
    pub total_value: Decimal,
}

impl View for SnapshotLevel {
    type V = LevelView;

    open spec fn view(&self) -> LevelView {
        LevelView { price: self.price@, size: self.total_size@, value: self.total_value@ }
    }
}

impl SnapshotLevel {
    /// The row of zeros.
    pub fn new() -> (r: SnapshotLevel)
        ensures
            r@ == (LevelView { price: 0real, size: 0real, value: 0real }),
            r.relative_size == 0,
    {
        SnapshotLevel {
            price: Decimal::zero(),
            total_size: Decimal::zero(),
            total_value: Decimal::zero(),
            relative_size: 0,
        }
    }
}

/// What a sequence of rows stands for.
pub open spec fn rows_view(v: Seq<SnapshotLevel>) -> Seq<LevelView> {
    v.map_values(|l: SnapshotLevel| l@)
}

/// No row carries a relative size.
pub open spec fn rows_plain(v: Seq<SnapshotLevel>) -> bool {
    forall|i: int| 0 <= i < v.len() ==> (#[trigger] v[i]).relative_size == 0
}

/// The totals of a book, its spread and its sequence number.
#[derive(Debug)]
pub struct OrderBookInfo {
    pub asks_total: Decimal,
    pub asks_value_total: Decimal,
    pub bids_value_total: Decimal,
    pub bids_total: Decimal,
    /// The best ask less the best bid.
    pub spread: Decimal,
    pub sequence: u64,
}

/// A book as a display shows it.
#[derive(Debug)]
pub struct OrderBookSnapshot {
    pub instrument: String,
    pub time: u64,
    pub info: OrderBookInfo,
    pub asks: Vec<SnapshotLevel>,
    pub bids: Vec<SnapshotLevel>,
    pub cum_bid_values: Vec<SnapshotLevel>,
    pub cum_ask_values: Vec<SnapshotLevel>,
}

} // verus!
