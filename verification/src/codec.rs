//! Between snapshot messages and books.

use crate::book::{level_of, regrouped, BookView, OrderBook, OrderType, SideView};
use crate::ladder::{
    ascending, inserted, lemma_rank_is, total_size, total_value, Ladder,
};
use crate::level::{Level, LevelView};
use crate::messages::{price_levels_view, BookInfo, PriceLevel, SnapshotMessage, SnapshotView};
use crate::snapshot::SnapshotLevel;
use vstd::prelude::*;

verus! {

/// The ladder that a list of snapshot levels gives: each level set in turn, so
/// that of two at one price the later stays.  The values are computed anew
/// from price and size.
pub open spec fn ladder_of(list: Seq<LevelView>) -> Seq<LevelView>
    decreases list.len(),
{
    if list.len() == 0 {
        Seq::empty()
    } else {
        inserted(ladder_of(list.drop_last()), level_of(list.last().price, list.last().size))
    }
}

/// One side of the book that a snapshot gives: the totals are the sums over
/// the levels, whatever the message says of them, and the buckets are one wide.
pub open spec fn decoded_side(list: Seq<LevelView>, lower: bool) -> SideView {
    let levels = ladder_of(list);
    SideView {
        levels,
        total: total_size(levels),
        value_total: total_value(levels),
        grouped: regrouped(levels, 1real, lower),
    }
}

/// The book that a snapshot gives.  A negative sequence number counts as zero.
pub open spec fn decoded(m: SnapshotView) -> BookView {
    BookView {
        instrument: m.product_id,
        sequence: if m.source_sequence >= 0 {
            m.source_sequence
        } else {
            0
        },
        bid: decoded_side(m.bids, true),
        ask: decoded_side(m.asks, false),
        group_size: 1real,
    }
}

/// `n`, which is not negative, cut to 32 bits and read as a signed number.
pub open spec fn wrap_signed(n: int) -> int {
    let low = n % 0x1_0000_0000;
    if low < 0x8000_0000 {
        low
    } else {
        low - 0x1_0000_0000
    }
}

/// The levels as a snapshot lists them: price, size, and their product.
pub open spec fn listed(levels: Seq<LevelView>) -> Seq<LevelView> {
    levels.map_values(|l: LevelView| level_of(l.price, l.size))
}

/// The snapshot of a book, taken at `time`.  The sequence number is cut to the
/// 32 bits that the message has for it.
pub open spec fn encoded(b: BookView, time: int) -> SnapshotView {
    SnapshotView {
        exchange: -1,
        product_id: b.instrument,
        source_sequence: wrap_signed(b.sequence),
        time,
        info_sequence: b.sequence % 0x1_0000_0000,
        ask_total_size: b.ask.total,
        ask_total_value: b.ask.value_total,
        bid_total_size: b.bid.total,
        bid_total_value: b.bid.value_total,
        bids: listed(b.bid.levels),
        asks: listed(b.ask.levels),
    }
}

/// Every level's value is the product of its price and its size.
pub open spec fn products_ok(s: Seq<LevelView>) -> bool {
    forall|i: int| 0 <= i < s.len() ==> (#[trigger] s[i]).value == s[i].price * s[i].size
}

/// Two ladders hold the same prices with the same sizes, in the same order.
pub open spec fn same_pairs(a: Seq<LevelView>, b: Seq<LevelView>) -> bool {
    &&& a.len() == b.len()
    &&& forall|i: int|
        0 <= i < a.len() ==> (#[trigger] a[i]).price == b[i].price && a[i].size == b[i].size
}

/// The ladder built from the listing of a ladder is that listing.
pub proof fn lemma_ladder_roundtrip(s: Seq<LevelView>)
    requires
        ascending(s),
    ensures
        ladder_of(listed(s)) == listed(s),
    decreases s.len(),
{
    let list = listed(s);
    if s.len() > 0 {
        let rest = listed(s.drop_last());
        assert(rest =~= list.drop_last());
        assert(ascending(s.drop_last())) by {
            assert forall|i: int, j: int| 0 <= i < j < s.len() - 1 implies s.drop_last()[i].price
                < s.drop_last()[j].price by {
                assert(s[i].price < s[j].price);
            }
        }
        lemma_ladder_roundtrip(s.drop_last());
        let l = list.last();
        assert(level_of(l.price, l.size) == l);
        assert forall|i: int| 0 <= i < rest.len() implies rest[i].price < l.price by {
            assert(s[i].price < s[s.len() - 1].price);
        }
        lemma_rank_is(rest, l.price, rest.len() as int);
        assert(inserted(rest, l) =~= list);
    } else {
        assert(list =~= Seq::<LevelView>::empty());
    }
}

/// A book encoded and decoded again holds, on each side, the prices that it
/// held with the sizes that it held, and has its sequence number, as long as
/// that number fits the 31 bits that a snapshot has for it.  Where every value
/// of the book is the product of price and size, the levels are the same
/// altogether.
pub proof fn lemma_snapshot_roundtrip(b: BookView, time: int)
    requires
        b.ordered(),
        0 <= b.sequence <= 0x7fff_ffff,
    ensures
        same_pairs(decoded(encoded(b, time)).bid.levels, b.bid.levels),
        same_pairs(decoded(encoded(b, time)).ask.levels, b.ask.levels),
        decoded(encoded(b, time)).sequence == b.sequence,
        decoded(encoded(b, time)).instrument == b.instrument,
        products_ok(b.bid.levels) ==> decoded(encoded(b, time)).bid.levels == b.bid.levels,
        products_ok(b.ask.levels) ==> decoded(encoded(b, time)).ask.levels == b.ask.levels,
{
    lemma_ladder_roundtrip(b.bid.levels);
    lemma_ladder_roundtrip(b.ask.levels);
    if products_ok(b.bid.levels) {
        assert(listed(b.bid.levels) =~= b.bid.levels);
    }
    if products_ok(b.ask.levels) {
        assert(listed(b.ask.levels) =~= b.ask.levels);
    }
}

/// Sets every level of a list on one side of a book.
fn install(book: &mut OrderBook, order_type: OrderType, list: &Vec<PriceLevel>)
    requires
        old(book).wf(),
        forall|i: int| 0 <= i < list@.len() ==> (#[trigger] list@[i]).wf(),
        match order_type {
            OrderType::Bid => old(book)@.bid.levels.len() == 0,
            OrderType::Ask => old(book)@.ask.levels.len() == 0,
        },
    ensures
        final(book).wf(),
        final(book).sequence == old(book).sequence,
        final(book)@.instrument == old(book)@.instrument,
        final(book)@.group_size == old(book)@.group_size,
        match order_type {
            OrderType::Bid => final(book)@.bid.levels == ladder_of(price_levels_view(list@))
                && final(book)@.ask.levels == old(book)@.ask.levels,
            OrderType::Ask => final(book)@.ask.levels == ladder_of(price_levels_view(list@))
                && final(book)@.bid.levels == old(book)@.bid.levels,
        },
{
    let sequence = book.sequence;
    let ghost all = price_levels_view(list@);
    let mut i: usize = 0;
    assert(all.take(0) == Seq::<LevelView>::empty());
    proof {
        match order_type {
            OrderType::Bid => assert(book@.bid.levels =~= Seq::<LevelView>::empty()),
            OrderType::Ask => assert(book@.ask.levels =~= Seq::<LevelView>::empty()),
        }
    }
    while i < list.len()
        invariant
            0 <= i <= list@.len(),
            all == price_levels_view(list@),
            forall|j: int| 0 <= j < list@.len() ==> (#[trigger] list@[j]).wf(),
            book.wf(),
            book.sequence == sequence,
            book@.instrument == old(book)@.instrument,
            book@.group_size == old(book)@.group_size,
            match order_type {
                OrderType::Bid => book@.bid.levels == ladder_of(all.take(i as int))
                    && book@.ask.levels == old(book)@.ask.levels,
                OrderType::Ask => book@.ask.levels == ladder_of(all.take(i as int))
                    && book@.bid.levels == old(book)@.bid.levels,
            },
        decreases list@.len() - i,
    {
        let entry = &list[i];
        assert(list@[i as int].wf());
        assert(all.take(i + 1).drop_last() == all.take(i as int));
        assert(all.take(i + 1).last() == entry@);
        book.add_level(order_type, entry.price.clone(), entry.total_size.clone(), sequence);
        i = i + 1;
    }
    assert(all.take(i as int) == all);
}

/// The levels of a ladder as a snapshot lists them.
fn list_of(ladder: &Ladder) -> (r: Vec<PriceLevel>)
    requires
        ladder.wf(),
    ensures
        price_levels_view(r@) == listed(ladder@),
        forall|i: int| 0 <= i < r@.len() ==> (#[trigger] r@[i]).wf(),
{
    let mut out: Vec<PriceLevel> = Vec::new();
    let mut i: usize = 0;
    while i < ladder.len()
        invariant
            ladder.wf(),
            0 <= i <= ladder@.len(),
            out@.len() == i,
            forall|j: int| 0 <= j < i ==> (#[trigger] out@[j]).wf(),
            forall|j: int|
                0 <= j < i ==> (#[trigger] out@[j])@ == level_of(ladder@[j].price, ladder@[j].size),
        decreases ladder@.len() - i,
    {
        out.push(ladder.level(i).clone().into_price_level());
        i = i + 1;
    }
    assert(price_levels_view(out@) =~= listed(ladder@));
    out
}

impl Level {
    /// The level that a snapshot level stands for: its price and size, with
    /// the value computed anew.
    pub fn from_price_level(level: PriceLevel) -> (r: Level)
        requires
            level.wf(),
        ensures
            r.wf(),
            r@ == level_of(level@.price, level@.size),
    {
        Level::new(level.price, level.total_size)
    }

    /// The level as a snapshot lists it: price, size, and their product.
    pub fn into_price_level(self) -> (r: PriceLevel)
        requires
            self.wf(),
        ensures
            r.wf(),
            r@ == level_of(self@.price, self@.size),
    {
        let total_value = self.price.times(&self.size);
        PriceLevel { price: self.price, total_size: self.size, total_value }
    }

    /// The level as a display shows it: price, size, and their product.
    pub fn into_snapshot_level(self) -> (r: SnapshotLevel)
        requires
            self.wf(),
        ensures
            r@ == level_of(self@.price, self@.size),
            r.relative_size == 0,
    {
        let total_value = self.price.times(&self.size);
        SnapshotLevel {
            price: self.price,
            total_size: self.size,
            total_value,
            relative_size: 0,
        }
    }
}

impl OrderBook {
    /// The book that a snapshot gives: its levels, the totals summed anew
    /// over them, and buckets one wide.
    pub fn from_snapshot(snapshot: SnapshotMessage) -> (r: OrderBook)
        requires
            snapshot.wf(),
        ensures
            r.wf(),
            r@ == decoded(snapshot@),
            r@.in_sync(),
    {
        let sequence: u64 = if snapshot.source_sequence >= 0 {
            snapshot.source_sequence as u64
        } else {
            0
        };
        let mut book = OrderBook::new(snapshot.product_id.as_str(), sequence);
        install(&mut book, OrderType::Ask, &snapshot.asks);
        install(&mut book, OrderType::Bid, &snapshot.bids);
        book.refresh_groupings();
        book
    }

    /// The snapshot of the book, taken at `time`.
    pub fn to_snapshot(&self, time: u64) -> (r: SnapshotMessage)
        requires
            self.wf(),
        ensures
            r@ == encoded(self@, time as int),
            r.wf(),
    {
        let low: u64 = self.sequence % 0x1_0000_0000;
        let source_sequence: i32 = if low < 0x8000_0000 {
            low as i32
        } else {
            (low as i64 - 0x1_0000_0000) as i32
        };
        let info = BookInfo {
            sequence: low as u32,
            ask_total_size: self.asks_total.clone(),
            ask_total_value: self.asks_value_total.clone(),
            bid_total_size: self.bids_total.clone(),
            bid_total_value: self.bids_value_total.clone(),
        };
        SnapshotMessage {
            exchange: -1,
            info,
            product_id: self.instrument.clone(),
            bids: list_of(&self.bids),
            asks: list_of(&self.asks),
            source_sequence,
            time,
        }
    }
}

} // verus!
