//! The books of a host, each under a number of the host's choosing.

use crate::book::{BookView, OrderBook};
use crate::book_utils::grid_step;
use crate::codec::{decoded, encoded};
use crate::decimal::{decimals_view, exp10, pow10, Decimal};
use crate::level::LevelView;
use crate::messages::{LevelUpdate, Side, SnapshotMessage, UpdateView};
use crate::snapshot::{rows_view, SnapshotLevel};
use crate::views::{ask_rows, bid_rows};
use std::collections::HashMap;
use vstd::prelude::*;

verus! {

broadcast use vstd::std_specs::hash::group_hash_axioms;

/// The number that parts the asks from the bids in a flat snapshot:
/// 99999.99999.
pub open spec fn sentinel() -> real {
    100000real - 1real / 100000real
}

/// The rows as one run of numbers: each price followed by its size.
pub open spec fn pairs(rows: Seq<LevelView>) -> Seq<real> {
    Seq::new(
        2 * rows.len(),
        |i: int|
            if i % 2 == 0 {
                rows[i / 2].price
            } else {
                rows[i / 2].size
            },
    )
}

/// A window of buckets as one run of numbers: the asks from the highest price
/// down, the sentinel twice, the bids in the order given.
pub open spec fn flat(asks: Seq<LevelView>, bids: Seq<LevelView>) -> Seq<real> {
    pairs(asks.reverse()) + seq![sentinel(), sentinel()] + pairs(bids)
}

/// The side that a host names by a number: zero buys, one sells.
pub open spec fn side_numbered(side: u32) -> Side {
    if side == 0 {
        Side::Buy
    } else {
        Side::Sell
    }
}

/// The sum of two numbers.
pub fn sum(a: u64, b: u64) -> (r: u64)
    requires
        a + b <= u64::MAX,
    ensures
        r == a + b,
{
    a + b
}

/// The books of a host.
pub struct BookMap {
    pub books: HashMap<u32, OrderBook>,
}

impl BookMap {
    /// Every book is well formed.
    pub open spec fn wf(&self) -> bool {
        forall|id: u32| self.books@.contains_key(id) ==> (#[trigger] self.books@[id]).wf()
    }

    /// Every book but the one numbered `book_id` is as it was in `before`.
    pub open spec fn others_as_in(&self, before: &BookMap, book_id: u32) -> bool {
        forall|id: u32|
            id != book_id ==> self.books@.contains_key(id) == before.books@.contains_key(id) && (
            self.books@.contains_key(id) ==> #[trigger] self.books@[id] == before.books@[id])
    }

    /// No books.
    pub fn new() -> (r: BookMap)
        ensures
            r.wf(),
            r.books@ == Map::<u32, OrderBook>::empty(),
    {
        BookMap { books: HashMap::new() }
    }

    /// Whether there is a book numbered `book_id`.
    pub fn has_book(&self, book_id: u32) -> (r: bool)
        ensures
            r == self.books@.contains_key(book_id),
    {
        self.books.contains_key(&book_id)
    }

    /// Puts the book that a snapshot gives under `book_id`, in place of any
    /// book that was there.  Where the host could not read a snapshot (`None`),
    /// an empty book without a name takes the place.
    pub fn update_snapshot(&mut self, book_id: u32, snapshot: Option<SnapshotMessage>) -> (r: bool)
        requires
            old(self).wf(),
            match snapshot {
                Some(m) => m.wf(),
                None => true,
            },
        ensures
            r,
            final(self).wf(),
            final(self).books@.contains_key(book_id),
            final(self).books@[book_id]@ == match snapshot {
                Some(m) => decoded(m@),
                None => BookView::empty(""@, 0),
            },
            final(self).others_as_in(old(self), book_id),
    {
        let book = match snapshot {
            Some(m) => OrderBook::from_snapshot(m),
            None => OrderBook::new("", 0),
        };
        self.books.insert(book_id, book);
        true
    }

    /// Applies an update to the book numbered `book_id`.  The result is
    /// `false` where there is no such book, and where the update leaves a gap.
    pub fn update_book_level(&mut self, book_id: u32, level_message: LevelUpdate) -> (r: bool)
        requires
            old(self).wf(),
            level_message.wf(),
        ensures
            final(self).wf(),
            final(self).others_as_in(old(self), book_id),
            final(self).books@.contains_key(book_id) == old(self).books@.contains_key(book_id),
            old(self).books@.contains_key(book_id) ==> final(self).books@[book_id]@ == old(
                self,
            ).books@[book_id]@.apply(level_message@),
            r == (old(self).books@.contains_key(book_id) && level_message.sequence <= old(
                self,
            ).books@[book_id].sequence + 1),
    {
        match self.books.remove(&book_id) {
            Some(mut book) => {
                let r = book.update_level_message(level_message);
                self.books.insert(book_id, book);
                r
            },
            None => false,
        }
    }

    /// Sets a level of the book numbered `book_id`, as the update that
    /// follows the book's last one.  The result is `false` where there is no
    /// such book, and where the next sequence number does not fit an update.
    pub fn update_book_level_struct(&mut self, book_id: u32, side: u32, price: Decimal, size: Decimal) -> (r: bool)
        requires
            old(self).wf(),
            side <= 1,
            price.wf(),
            size.wf(),
        ensures
            final(self).wf(),
            final(self).others_as_in(old(self), book_id),
            final(self).books@.contains_key(book_id) == old(self).books@.contains_key(book_id),
            r == (old(self).books@.contains_key(book_id) && old(self).books@[book_id].sequence
                < 0x7fff_ffff),
            old(self).books@.contains_key(book_id) ==> final(self).books@[book_id]@ == if r {
                old(self).books@[book_id]@.apply(
                    UpdateView {
                        side: side_numbered(side),
                        price: price@,
                        size: size@,
                        sequence: old(self).books@[book_id].sequence + 1,
                    },
                )
            } else {
                old(self).books@[book_id]@
            },
    {
        match self.books.remove(&book_id) {
            Some(mut book) => {
                let mut r = false;
                if book.sequence < 0x7fff_ffff {
                    let update = LevelUpdate {
                        exchange: "".to_owned(),
                        price,
                        product_id: "".to_owned(),
                        sequence: (book.sequence + 1) as i32,
                        side: if side == 0 {
                            Side::Buy
                        } else {
                            Side::Sell
                        },
                        size,
                        time: 0,
                        count: 0,
                    };
                    r = book.update_level_message(update);
                }
                self.books.insert(book_id, book);
                r
            },
            None => false,
        }
    }

    /// The snapshot of the book numbered `book_id`, taken at `time`.
    pub fn get_snapshot(&self, book_id: u32, time: u64) -> (r: Option<SnapshotMessage>)
        requires
            self.wf(),
        ensures
            match r {
                Some(m) => self.books@.contains_key(book_id) && m@ == encoded(
                    self.books@[book_id]@,
                    time as int,
                ) && m.wf(),
                None => !self.books@.contains_key(book_id),
            },
    {
        match self.books.get(&book_id) {
            Some(book) => Some(book.to_snapshot(time)),
            None => None,
        }
    }

    /// The window of `count` buckets on each side of the mid price of the
    /// book numbered `book_id`, as one run of numbers: price and size of each
    /// ask bucket from the highest price down, the sentinel twice, price and
    /// size of each bid bucket from the lowest price up.  Nothing where there
    /// is no such book.
    pub fn get_grouped_snapshot(&self, book_id: u32, count: usize) -> (r: Vec<Decimal>)
        requires
            self.wf(),
        ensures
            decimals_view(r@) == if self.books@.contains_key(book_id) {
                flat(
                    ask_rows(self.books@[book_id]@, count as int),
                    bid_rows(self.books@[book_id]@, count as int),
                )
            } else {
                Seq::<real>::empty()
            },
    {
        let mut out: Vec<Decimal> = Vec::new();
        assert(decimals_view(out@) =~= Seq::<real>::empty());
        match self.books.get(&book_id) {
            Some(book) => {
                let snapshot = book.get_grouped_snapshot_new(count);
                push_pairs(&mut out, &snapshot.asks, true);
                let mark = sentinel_mark();
                out.push(mark.clone());
                out.push(mark);
                let ghost head = pairs(rows_view(snapshot.asks@).reverse()) + seq![
                    sentinel(),
                    sentinel(),
                ];
                assert(decimals_view(out@) =~= head);
                push_pairs(&mut out, &snapshot.bids, false);
            },
            None => {},
        }
        out
    }

    /// Sets the bucket width of the book numbered `book_id`, if there is one.
    pub fn set_group_size(&mut self, book_id: u32, size: Decimal)
        requires
            old(self).wf(),
            size.wf(),
            grid_step(size@) > 0real,
        ensures
            final(self).wf(),
            final(self).others_as_in(old(self), book_id),
            final(self).books@.contains_key(book_id) == old(self).books@.contains_key(book_id),
            old(self).books@.contains_key(book_id) ==> final(self).books@[book_id]@ == old(
                self,
            ).books@[book_id]@.regroup(size@),
    {
        match self.books.remove(&book_id) {
            Some(mut book) => {
                book.set_group_size(size);
                self.books.insert(book_id, book);
            },
            None => {},
        }
    }
}

/// Appends price and size of each row: in the order given, or from the last
/// row to the first.
fn push_pairs(out: &mut Vec<Decimal>, rows: &Vec<SnapshotLevel>, backwards: bool)
    ensures
        decimals_view(final(out)@) == decimals_view(old(out)@) + pairs(
            if backwards {
                rows_view(rows@).reverse()
            } else {
                rows_view(rows@)
            },
        ),
{
    let ghost start = decimals_view(out@);
    let ghost base = out@.len();
    let ghost w = if backwards {
        rows_view(rows@).reverse()
    } else {
        rows_view(rows@)
    };
    let n = rows.len();
    let mut i: usize = 0;
    while i < n
        invariant
            0 <= i <= n,
            n == rows@.len(),
            w.len() == n,
            forall|j: int|
                0 <= j < n ==> #[trigger] w[j] == rows@[if backwards {
                    n - 1 - j
                } else {
                    j
                }]@,
            base == start.len(),
            out@.len() == base + 2 * i,
            forall|j: int| 0 <= j < base ==> (#[trigger] out@[j])@ == start[j],
            forall|j: int| 0 <= j < i ==> (#[trigger] out@[base + 2 * j])@ == w[j].price,
            forall|j: int| 0 <= j < i ==> (#[trigger] out@[base + 2 * j + 1])@ == w[j].size,
        decreases n - i,
    {
        let level = if backwards {
            &rows[n - 1 - i]
        } else {
            &rows[i]
        };
        assert(level@ == w[i as int]);
        out.push(level.price.clone());
        out.push(level.total_size.clone());
        i = i + 1;
    }
    assert(decimals_view(out@) =~= start + pairs(w)) by {
        let t = start + pairs(w);
        assert(t.len() == out@.len());
        assert forall|j: int| 0 <= j < out@.len() implies decimals_view(out@)[j] == t[j] by {
            if j >= base {
                let d = j - base;
                let h = d / 2;
                if d % 2 == 0 {
                    assert(d == 2 * h);
                    assert(out@[base + 2 * h]@ == w[h].price);
                } else {
                    assert(d == 2 * h + 1);
                    assert(out@[base + 2 * h + 1]@ == w[h].size);
                }
            }
        }
    }
}

/// The sentinel as a decimal.
fn sentinel_mark() -> (r: Decimal)
    ensures
        r@ == sentinel(),
{
    let high = Decimal::small_scaled(1, -5);
    let low = Decimal::small_scaled(1, 5);
    proof {
        reveal_with_fuel(pow10, 6);
        assert(exp10(5) == 100000real);
        assert(exp10(-5) == 1real / 100000real);
    }
    high.minus(&low)
}

} // verus!
