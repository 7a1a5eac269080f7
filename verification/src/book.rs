//! The order book of one instrument: two ladders, their running totals, and
//! the ladders grouped into buckets.

use crate::book_utils::{grid_step, group, group_spec};
use crate::decimal::Decimal;
use crate::invariants::{
    lemma_add_keeps_sizes, lemma_add_keeps_sync, lemma_add_keeps_totals, lemma_regrouped,
    lemma_remove_keeps_sizes, lemma_remove_keeps_sync, lemma_remove_keeps_totals,
    lemma_unit_grid_step,
};
use crate::ladder::{
    ascending, found, inserted, removed, size_at, sum_by, total_size, total_value, value_at, Ladder,
};
use crate::level::{Level, LevelView};
use crate::messages::{LevelUpdate, Side, UpdateView};
use vstd::prelude::*;

verus! {

/// The side of the book that a level rests on.
#[derive(Clone, Copy, Debug, PartialEq, Eq, Structural)]
pub enum OrderType {
    /// Buy interest: the highest price is the best.
    Bid,
    /// Sell interest: the lowest price is the best.
    Ask,
}

/// The level of `size` at `price`, with its notional.
pub open spec fn level_of(price: real, size: real) -> LevelView {
    LevelView { price, size, value: price * size }
}

/// What a level adds to bucket `b`: its size where its price groups to `b`.
pub open spec fn in_bucket(b: real, g: real, lower: bool) -> spec_fn(LevelView) -> real {
    |l: LevelView|
        if group_spec(l.price, g, lower) == b {
            l.size
        } else {
            0real
        }
}

/// The size that the levels of `raw` hold in bucket `b`.
pub open spec fn bucket_size(raw: Seq<LevelView>, b: real, g: real, lower: bool) -> real {
    sum_by(raw, in_bucket(b, g, lower))
}

/// Every bucket of `grouped` holds what the levels of `raw` hold in it, and a
/// bucket that `grouped` lacks holds nothing.
pub open spec fn grouping_of(
    raw: Seq<LevelView>,
    grouped: Seq<LevelView>,
    g: real,
    lower: bool,
) -> bool {
    forall|b: real| #[trigger] size_at(grouped, b) == bucket_size(raw, b, g, lower)
}

/// No level has a negative size.
pub open spec fn sizes_not_negative(s: Seq<LevelView>) -> bool {
    forall|i: int| 0 <= i < s.len() ==> (#[trigger] s[i]).size >= 0real
}

/// The buckets that the levels of `raw` fall into, each with the sum of the
/// sizes that fall into it.
pub open spec fn regrouped(raw: Seq<LevelView>, g: real, lower: bool) -> Seq<LevelView>
    decreases raw.len(),
{
    if raw.len() == 0 {
        Seq::empty()
    } else {
        let rest = regrouped(raw.drop_last(), g, lower);
        let b = group_spec(raw.last().price, g, lower);
        inserted(rest, level_of(b, size_at(rest, b) + raw.last().size))
    }
}

/// What is to be done with an update numbered `received` by a book whose last
/// update was numbered `current`: whether to stop, and what to report if so.
pub open spec fn sequence_check(current: int, received: int) -> (bool, bool) {
    if received < current + 1 {
        (true, true)
    } else if received > current + 1 {
        (true, false)
    } else {
        (false, false)
    }
}

/// The side of the book that an update of the given feed side goes to.
pub open spec fn side_of(side: Side) -> OrderType {
    match side {
        Side::Buy => OrderType::Bid,
        Side::Sell => OrderType::Ask,
    }
}

/// Every level has a positive size.
pub open spec fn sizes_positive(s: Seq<LevelView>) -> bool {
    forall|i: int| 0 <= i < s.len() ==> (#[trigger] s[i]).size > 0real
}

/// No bucket of the grouped ladder has size zero.
pub open spec fn no_empty_bucket(grouped: Seq<LevelView>) -> bool {
    forall|i: int| 0 <= i < grouped.len() ==> (#[trigger] grouped[i]).size != 0real
}

/// What one side of a book stands for.
pub struct SideView {
    /// The levels, in ascending order of price.
    pub levels: Seq<LevelView>,
    /// The running sum of the sizes.
    pub total: real,
    /// The running sum of the notionals.
    pub value_total: real,
    /// The buckets, in ascending order of price, each with its aggregate size.
    pub grouped: Seq<LevelView>,
}

impl SideView {
    /// The side after the level at `p` was set to `size`.
    pub open spec fn add(self, p: real, size: real, g: real, lower: bool) -> SideView {
        let b = group_spec(p, g, lower);
        SideView {
            levels: inserted(self.levels, level_of(p, size)),
            total: self.total + size - size_at(self.levels, p),
            value_total: self.value_total + p * size - value_at(self.levels, p),
            grouped: inserted(
                self.grouped,
                level_of(b, size_at(self.grouped, b) - size_at(self.levels, p) + size),
            ),
        }
    }

    /// The side after the level at `p` was taken out.
    pub open spec fn remove(self, p: real, g: real, lower: bool) -> SideView {
        match found(self.levels, p) {
            None => self,
            Some(l) => {
                let b = group_spec(p, g, lower);
                SideView {
                    levels: removed(self.levels, p),
                    total: self.total - l.size,
                    value_total: self.value_total - l.value,
                    grouped: match found(self.grouped, b) {
                        None => self.grouped,
                        Some(e) => if e.size == l.size {
                            removed(self.grouped, b)
                        } else {
                            inserted(self.grouped, level_of(b, e.size - l.size))
                        },
                    },
                }
            },
        }
    }

    /// Both ladders ascend.
    pub open spec fn ordered(self) -> bool {
        ascending(self.levels) && ascending(self.grouped)
    }

    /// The running totals are the sums over the levels.
    pub open spec fn totals_ok(self) -> bool {
        &&& self.total == total_size(self.levels)
        &&& self.value_total == total_value(self.levels)
    }

    /// The buckets hold what the levels hold.
    pub open spec fn in_sync(self, g: real, lower: bool) -> bool {
        grouping_of(self.levels, self.grouped, g, lower)
    }
}

/// What an [`OrderBook`] stands for.
pub struct BookView {
    pub instrument: Seq<char>,
    pub sequence: int,
    pub bid: SideView,
    pub ask: SideView,
    pub group_size: real,
}

impl BookView {
    /// The book after the level at `p` on side `t` was set to `size`.
    pub open spec fn add_level(self, t: OrderType, p: real, size: real, sequence: int) -> BookView {
        match t {
            OrderType::Bid => BookView {
                bid: self.bid.add(p, size, self.group_size, true),
                sequence,
                ..self
            },
            OrderType::Ask => BookView {
                ask: self.ask.add(p, size, self.group_size, false),
                sequence,
                ..self
            },
        }
    }

    /// The book after the level at `p` on side `t` was taken out.
    pub open spec fn remove_level(self, t: OrderType, p: real, sequence: int) -> BookView {
        match t {
            OrderType::Bid => BookView {
                bid: self.bid.remove(p, self.group_size, true),
                sequence,
                ..self
            },
            OrderType::Ask => BookView {
                ask: self.ask.remove(p, self.group_size, false),
                sequence,
                ..self
            },
        }
    }

    /// The book with buckets of width `g`, the grouped ladders built anew.
    pub open spec fn regroup(self, g: real) -> BookView {
        BookView {
            bid: SideView { grouped: regrouped(self.bid.levels, g, true), ..self.bid },
            ask: SideView { grouped: regrouped(self.ask.levels, g, false), ..self.ask },
            group_size: g,
            ..self
        }
    }

    /// The book after an update: unchanged where the update is stale or leaves
    /// a gap; else the level is taken out of both sides for size zero, and set
    /// on the update's side otherwise.
    pub open spec fn apply(self, u: UpdateView) -> BookView {
        if sequence_check(self.sequence, u.sequence).0 {
            self
        } else if u.size == 0real {
            self.remove_level(OrderType::Bid, u.price, u.sequence).remove_level(
                OrderType::Ask,
                u.price,
                u.sequence,
            )
        } else {
            self.add_level(side_of(u.side), u.price, u.size, u.sequence)
        }
    }

    /// The book without levels, with buckets of width one.
    pub open spec fn empty(instrument: Seq<char>, sequence: int) -> BookView {
        let side = SideView {
            levels: Seq::empty(),
            total: 0real,
            value_total: 0real,
            grouped: Seq::empty(),
        };
        BookView { instrument, sequence, bid: side, ask: side, group_size: 1real }
    }

    /// All four ladders ascend.
    pub open spec fn ordered(self) -> bool {
        self.bid.ordered() && self.ask.ordered()
    }

    /// The four running totals are the sums over the levels.
    pub open spec fn totals_ok(self) -> bool {
        self.bid.totals_ok() && self.ask.totals_ok()
    }

    /// The grouped ladders hold what the raw ladders hold: bids grouped
    /// downwards, asks upwards.
    pub open spec fn in_sync(self) -> bool {
        self.bid.in_sync(self.group_size, true) && self.ask.in_sync(self.group_size, false)
    }

    /// No level of either side has a negative size.
    pub open spec fn sizes_not_negative(self) -> bool {
        sizes_not_negative(self.bid.levels) && sizes_not_negative(self.ask.levels)
    }
}

/// The order book of one instrument.
#[derive(Debug)]
pub struct OrderBook {
    pub instrument: String,
    /// The sequence number of the update applied last.
    pub sequence: u64,
    pub bids: Ladder,
    pub asks: Ladder,
    pub bids_total: Decimal,
    pub bids_value_total: Decimal,
    pub asks_total: Decimal,
    pub asks_value_total: Decimal,
    pub grouped_bids: Ladder,
    pub grouped_asks: Ladder,
    /// The bucket width of the grouped ladders.
    pub group_size: Decimal,
}

impl View for OrderBook {
    type V = BookView;

    open spec fn view(&self) -> BookView {
        BookView {
            instrument: self.instrument@,
            sequence: self.sequence as int,
            bid: SideView {
                levels: self.bids@,
                total: self.bids_total@,
                value_total: self.bids_value_total@,
                grouped: self.grouped_bids@,
            },
            ask: SideView {
                levels: self.asks@,
                total: self.asks_total@,
                value_total: self.asks_value_total@,
                grouped: self.grouped_asks@,
            },
            group_size: self.group_size@,
        }
    }
}

impl Clone for OrderBook {
    /// A copy that stands for the same book.
    fn clone(&self) -> (r: Self)
        ensures
            r@ == self@,
            r.sequence == self.sequence,
            r.wf() == self.wf(),
    {
        OrderBook {
            instrument: self.instrument.clone(),
            sequence: self.sequence,
            bids: self.bids.clone(),
            asks: self.asks.clone(),
            bids_total: self.bids_total.clone(),
            bids_value_total: self.bids_value_total.clone(),
            asks_total: self.asks_total.clone(),
            asks_value_total: self.asks_value_total.clone(),
            grouped_bids: self.grouped_bids.clone(),
            grouped_asks: self.grouped_asks.clone(),
            group_size: self.group_size.clone(),
        }
    }
}

/// Sets the level at `price` to `size` on one side: the ladder, the two running
/// totals and the bucket that the price falls in.
fn side_add(
    levels: &mut Ladder,
    total: &mut Decimal,
    value_total: &mut Decimal,
    grouped: &mut Ladder,
    group_size: &Decimal,
    lower: bool,
    price: Decimal,
    size: Decimal,
)
    requires
        old(levels).wf(),
        old(grouped).wf(),
        old(total).wf(),
        old(value_total).within(2),
        group_size.wf(),
        grid_step(group_size@) > 0real,
        price.wf(),
        size.wf(),
    ensures
        final(levels).wf(),
        final(grouped).wf(),
        final(total).wf(),
        final(value_total).within(2),
        (SideView {
            levels: final(levels)@,
            total: final(total)@,
            value_total: final(value_total)@,
            grouped: final(grouped)@,
        }) == (SideView {
            levels: old(levels)@,
            total: old(total)@,
            value_total: old(value_total)@,
            grouped: old(grouped)@,
        }).add(price@, size@, group_size@, lower),
{
    let bucket = group(&price, group_size, lower);
    let level = Level::new(price, size);
    let size = level.size.clone();
    let value = level.value.clone();
    let prev = levels.upsert(level);
    let (prev_size, prev_value) = match prev {
        Some(l) => (l.size, l.value),
        None => (Decimal::zero(), Decimal::zero()),
    };
    *total = total.plus(&size).minus(&prev_size);
    *value_total = value_total.plus(&value).minus(&prev_value);
    let held = match grouped.get(&bucket) {
        Some(e) => e.size.clone(),
        None => Decimal::zero(),
    };
    let aggregate = held.minus(&prev_size).plus(&size);
    grouped.upsert(Level::new(bucket, aggregate));
}

/// Takes the level at `price` out of one side, if it is there.
fn side_remove(
    levels: &mut Ladder,
    total: &mut Decimal,
    value_total: &mut Decimal,
    grouped: &mut Ladder,
    group_size: &Decimal,
    lower: bool,
    price: &Decimal,
)
    requires
        old(levels).wf(),
        old(grouped).wf(),
        old(total).wf(),
        old(value_total).within(2),
        group_size.wf(),
        grid_step(group_size@) > 0real,
        price.wf(),
    ensures
        final(levels).wf(),
        final(grouped).wf(),
        final(total).wf(),
        final(value_total).within(2),
        (SideView {
            levels: final(levels)@,
            total: final(total)@,
            value_total: final(value_total)@,
            grouped: final(grouped)@,
        }) == (SideView {
            levels: old(levels)@,
            total: old(total)@,
            value_total: old(value_total)@,
            grouped: old(grouped)@,
        }).remove(price@, group_size@, lower),
{
    let gone = levels.take(price);
    if let Some(level) = gone {
        *total = total.minus(&level.size);
        *value_total = value_total.minus(&level.value);
        let bucket = group(price, group_size, lower);
        let held = match grouped.get(&bucket) {
            Some(e) => Some(e.size.clone()),
            None => None,
        };
        if let Some(existing) = held {
            if existing.same(&level.size) {
                grouped.take(&bucket);
            } else {
                let rest = existing.minus(&level.size);
                grouped.upsert(Level::new(bucket, rest));
            }
        }
    }
}

/// Builds the grouped ladder of one side from its levels.
fn side_regroup(levels: &Ladder, group_size: &Decimal, lower: bool) -> (grouped: Ladder)
    requires
        levels.wf(),
        group_size.wf(),
        grid_step(group_size@) > 0real,
    ensures
        grouped.wf(),
        grouped@ == regrouped(levels@, group_size@, lower),
{
    let mut grouped = Ladder::new();
    let mut i: usize = 0;
    assert(levels@.take(0) == Seq::<LevelView>::empty());
    while i < levels.len()
        invariant
            0 <= i <= levels@.len(),
            levels.wf(),
            group_size.wf(),
            grid_step(group_size@) > 0real,
            grouped.wf(),
            grouped@ == regrouped(levels@.take(i as int), group_size@, lower),
        decreases levels@.len() - i,
    {
        let level = levels.level(i);
        let bucket = group(&level.price, group_size, lower);
        let held = match grouped.get(&bucket) {
            Some(e) => e.size.clone(),
            None => Decimal::zero(),
        };
        let aggregate = held.plus(&level.size);
        grouped.upsert(Level::new(bucket, aggregate));
        assert(levels@.take(i + 1).drop_last() == levels@.take(i as int));
        i = i + 1;
    }
    assert(levels@.take(i as int) == levels@);
    grouped
}

impl OrderBook {
    /// The ladders are in order, every level is well formed, the bucket width
    /// is usable, and the running totals are the sums over the levels.
    pub open spec fn wf(&self) -> bool {
        &&& self.bids.wf()
        &&& self.asks.wf()
        &&& self.grouped_bids.wf()
        &&& self.grouped_asks.wf()
        &&& self.bids_total.wf()
        &&& self.asks_total.wf()
        &&& self.bids_value_total.within(2)
        &&& self.asks_value_total.within(2)
        &&& self.group_size.wf()
        &&& grid_step(self.group_size@) > 0real
        &&& self@.totals_ok()
    }

    /// The book without levels, with buckets of width one.
    pub fn new(instrument: &str, sequence: u64) -> (r: OrderBook)
        ensures
            r.wf(),
            r@ == BookView::empty(instrument@, sequence as int),
            r@.in_sync(),
            r@.sizes_not_negative(),
    {
        let one = Decimal::small(1);
        proof {
            lemma_unit_grid_step();
        }
        OrderBook {
            instrument: instrument.to_owned(),
            sequence,
            bids: Ladder::new(),
            asks: Ladder::new(),
            bids_total: Decimal::zero(),
            bids_value_total: Decimal::zero(),
            asks_total: Decimal::zero(),
            asks_value_total: Decimal::zero(),
            grouped_bids: Ladder::new(),
            grouped_asks: Ladder::new(),
            group_size: one,
        }
    }

    /// Sets the bucket width and builds the grouped ladders anew.
    pub fn set_group_size(&mut self, group_size: Decimal)
        requires
            old(self).wf(),
            group_size.wf(),
            grid_step(group_size@) > 0real,
        ensures
            final(self).wf(),
            final(self)@ == old(self)@.regroup(group_size@),
            final(self)@.in_sync(),
    {
        self.group_size = group_size;
        self.refresh_groupings();
    }

    /// Builds the grouped ladders anew from the raw ladders.
    pub fn refresh_groupings(&mut self)
        requires
            old(self).wf(),
        ensures
            final(self).wf(),
            final(self)@ == old(self)@.regroup(old(self)@.group_size),
            final(self)@.in_sync(),
    {
        proof {
            lemma_regrouped(self@.bid.levels, self@.group_size, true);
            lemma_regrouped(self@.ask.levels, self@.group_size, false);
        }
        self.grouped_asks = side_regroup(&self.asks, &self.group_size, false);
        self.grouped_bids = side_regroup(&self.bids, &self.group_size, true);
    }

    /// Holds the number of an update against the book's own: whether the
    /// caller is to stop, and what it is to report if so.  An update numbered
    /// at or below the book's is stale (stop, report success); one that skips a
    /// number leaves a gap (stop, report failure).
    pub fn verify_sequence(&self, sequence: i32) -> (r: (bool, bool))
        ensures
            r == sequence_check(self.sequence as int, sequence as int),
    {
        if sequence < 0 {
            return (true, true);
        }
        let received = sequence as u64;
        if received <= self.sequence {
            (true, true)
        } else if received - 1 > self.sequence {
            (true, false)
        } else {
            (false, false)
        }
    }

    /// Applies one update of the feed.  The result is `false` only for an
    /// update that leaves a gap; the book is then unchanged.
    pub fn update_level_message(&mut self, level_message: LevelUpdate) -> (r: bool)
        requires
            old(self).wf(),
            level_message.wf(),
        ensures
            final(self).wf(),
            final(self)@ == old(self)@.apply(level_message@),
            r == (level_message.sequence <= old(self).sequence + 1),
            final(self).sequence >= old(self).sequence,
            old(self)@.in_sync() && old(self)@.sizes_not_negative() && level_message@.size
                >= 0real ==> final(self)@.in_sync() && final(self)@.sizes_not_negative(),
    {
        let (stop, valid) = self.verify_sequence(level_message.sequence);
        if stop {
            return valid;
        }
        let sequence = level_message.sequence as u64;
        let order_type = match level_message.side {
            Side::Buy => OrderType::Bid,
            Side::Sell => OrderType::Ask,
        };
        if level_message.size.same(&Decimal::zero()) {
            self.remove_level(OrderType::Bid, level_message.price.clone(), sequence);
            self.remove_level(OrderType::Ask, level_message.price, sequence);
            true
        } else {
            self.add_level(order_type, level_message.price, level_message.size, sequence);
            true
        }
    }

    /// Treats the level at `price` on the given side as set to `size`: an
    /// upsert, not a delta.
    pub fn add_level(&mut self, order_type: OrderType, price: Decimal, size: Decimal, sequence: u64) -> (r: bool)
        requires
            old(self).wf(),
            price.wf(),
            size.wf(),
        ensures
            r,
            final(self).wf(),
            final(self)@ == old(self)@.add_level(order_type, price@, size@, sequence as int),
            old(self)@.in_sync() ==> final(self)@.in_sync(),
            old(self)@.sizes_not_negative() && size@ >= 0real
                ==> final(self)@.sizes_not_negative(),
    {
        self.sequence = sequence;
        proof {
            let b = old(self)@;
            match order_type {
                OrderType::Bid => {
                    lemma_add_keeps_totals(b.bid, price@, size@, b.group_size, true);
                    if b.sizes_not_negative() && size@ >= 0real {
                        lemma_add_keeps_sizes(b.bid.levels, level_of(price@, size@));
                    }
                    if b.in_sync() {
                        lemma_add_keeps_sync(b.bid, price@, size@, b.group_size, true);
                    }
                },
                OrderType::Ask => {
                    lemma_add_keeps_totals(b.ask, price@, size@, b.group_size, false);
                    if b.sizes_not_negative() && size@ >= 0real {
                        lemma_add_keeps_sizes(b.ask.levels, level_of(price@, size@));
                    }
                    if b.in_sync() {
                        lemma_add_keeps_sync(b.ask, price@, size@, b.group_size, false);
                    }
                },
            }
        }
        match order_type {
            OrderType::Bid => {
                side_add(
                    &mut self.bids,
                    &mut self.bids_total,
                    &mut self.bids_value_total,
                    &mut self.grouped_bids,
                    &self.group_size,
                    true,
                    price,
                    size,
                );
            },
            OrderType::Ask => {
                side_add(
                    &mut self.asks,
                    &mut self.asks_total,
                    &mut self.asks_value_total,
                    &mut self.grouped_asks,
                    &self.group_size,
                    false,
                    price,
                    size,
                );
            },
        }
        true
    }

    /// Takes the level at `price` out of the given side.  Where there is none,
    /// only the sequence number changes.
    pub fn remove_level(&mut self, order_type: OrderType, price: Decimal, sequence: u64) -> (r: bool)
        requires
            old(self).wf(),
            price.wf(),
        ensures
            r,
            final(self).wf(),
            final(self)@ == old(self)@.remove_level(order_type, price@, sequence as int),
            old(self)@.in_sync() && old(self)@.sizes_not_negative() ==> final(self)@.in_sync(),
            old(self)@.sizes_not_negative() ==> final(self)@.sizes_not_negative(),
    {
        self.sequence = sequence;
        proof {
            let b = old(self)@;
            match order_type {
                OrderType::Bid => {
                    lemma_remove_keeps_totals(b.bid, price@, b.group_size, true);
                    if b.sizes_not_negative() {
                        lemma_remove_keeps_sizes(b.bid.levels, price@);
                        if b.in_sync() {
                            lemma_remove_keeps_sync(b.bid, price@, b.group_size, true);
                        }
                    }
                },
                OrderType::Ask => {
                    lemma_remove_keeps_totals(b.ask, price@, b.group_size, false);
                    if b.sizes_not_negative() {
                        lemma_remove_keeps_sizes(b.ask.levels, price@);
                        if b.in_sync() {
                            lemma_remove_keeps_sync(b.ask, price@, b.group_size, false);
                        }
                    }
                },
            }
        }
        match order_type {
            OrderType::Bid => {
                side_remove(
                    &mut self.bids,
                    &mut self.bids_total,
                    &mut self.bids_value_total,
                    &mut self.grouped_bids,
                    &self.group_size,
                    true,
                    &price,
                );
            },
            OrderType::Ask => {
                side_remove(
                    &mut self.asks,
                    &mut self.asks_total,
                    &mut self.asks_value_total,
                    &mut self.grouped_asks,
                    &self.group_size,
                    false,
                    &price,
                );
            },
        }
        true
    }
}

} // verus!
