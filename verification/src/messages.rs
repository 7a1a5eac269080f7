//! The messages of the upstream feed, as plain values: every number that the
//! wire carries as a binary float is held here as the exact decimal that the
//! float stands for.

use crate::decimal::Decimal;
use crate::level::LevelView;
use vstd::prelude::*;

verus! {

/// The side of a level update, as the feed names it.
#[derive(Clone, Copy, Debug, PartialEq, Eq, Structural)]
pub enum Side {
    Buy,
    Sell,
}

/// What a [`LevelUpdate`] says: which level, its new size, and when.
pub struct UpdateView {
    pub side: Side,
    pub price: real,
    pub size: real,
    pub sequence: int,
}

/// The new absolute size of one price level; size zero takes the level out.
#[derive(Debug)]
pub struct LevelUpdate {
    pub exchange: String,
    pub product_id: String,
    pub side: Side,
    pub price: Decimal,
    pub size: Decimal,
    pub sequence: i32,
    /// Milliseconds since the epoch.
    pub time: u64,
    pub count: i32,
}

impl View for LevelUpdate {
    type V = UpdateView;

    open spec fn view(&self) -> UpdateView {
        UpdateView {
            side: self.side,
            price: self.price@,
            size: self.size@,
            sequence: self.sequence as int,
        }
    }
}

impl LevelUpdate {
    /// Price and size have scales in range.
    pub open spec fn wf(&self) -> bool {
        self.price.wf() && self.size.wf()
    }
}

/// One level of a snapshot.
#[derive(Debug)]
pub struct PriceLevel {
    pub price: Decimal,
    pub total_size: Decimal,
    pub total_value: Decimal,
}

impl View for PriceLevel {
    type V = LevelView;

    open spec fn view(&self) -> LevelView {
        LevelView { price: self.price@, size: self.total_size@, value: self.total_value@ }
    }
}

impl PriceLevel {
    /// Price and size have scales in range.
    pub open spec fn wf(&self) -> bool {
        self.price.wf() && self.total_size.wf()
    }
}

/// The aggregates that a snapshot carries beside its levels.
#[derive(Debug)]
pub struct BookInfo {
    pub sequence: u32,
    pub ask_total_size: Decimal,
    pub ask_total_value: Decimal,
    pub bid_total_size: Decimal,
    pub bid_total_value: Decimal,
}

/// What a [`SnapshotMessage`] says.
pub struct SnapshotView {
    pub exchange: int,
    pub product_id: Seq<char>,
    pub source_sequence: int,
    pub time: int,
    pub info_sequence: int,
    pub ask_total_size: real,
    pub ask_total_value: real,
    pub bid_total_size: real,
    pub bid_total_value: real,
    pub bids: Seq<LevelView>,
    pub asks: Seq<LevelView>,
}

/// What a sequence of snapshot levels stands for.
pub open spec fn price_levels_view(v: Seq<PriceLevel>) -> Seq<LevelView> {
    v.map_values(|l: PriceLevel| l@)
}

/// A complete book at one sequence number.
#[derive(Debug)]
pub struct SnapshotMessage {
    pub exchange: i32,
    pub product_id: String,
    pub source_sequence: i32,
    /// Milliseconds since the epoch.
    pub time: u64,
    pub info: BookInfo,
    /// The bids, in ascending order of price.
    pub bids: Vec<PriceLevel>,
    /// The asks, in ascending order of price.
    pub asks: Vec<PriceLevel>,
}

impl View for SnapshotMessage {
    type V = SnapshotView;

    open spec fn view(&self) -> SnapshotView {
        SnapshotView {
            exchange: self.exchange as int,
            product_id: self.product_id@,
            source_sequence: self.source_sequence as int,
            time: self.time as int,
            info_sequence: self.info.sequence as int,
            ask_total_size: self.info.ask_total_size@,
            ask_total_value: self.info.ask_total_value@,
            bid_total_size: self.info.bid_total_size@,
            bid_total_value: self.info.bid_total_value@,
            bids: price_levels_view(self.bids@),
            asks: price_levels_view(self.asks@),
        }
    }
}

impl SnapshotMessage {
    /// The prices and sizes of all levels have scales in range.
    pub open spec fn wf(&self) -> bool {
        &&& forall|i: int| 0 <= i < self.bids@.len() ==> (#[trigger] self.bids@[i]).wf()
        &&& forall|i: int| 0 <= i < self.asks@.len() ==> (#[trigger] self.asks@[i]).wf()
    }
}

} // verus!
