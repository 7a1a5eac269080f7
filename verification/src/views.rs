//! What a book shows: its best prices, the top of its ladders, running sums
//! over a price range, a depth histogram, and a window of buckets around the
//! mid price.

use crate::book::{BookView, OrderBook, OrderType};
use crate::book_utils::{
    grid_step, group, group_spec, lemma_grid_step_sign, scale_of, value_to_scale,
};
use crate::decimal::{decimals_view, round_at, Decimal, Rounding};
use crate::ladder::{
    ascending, found, lemma_rank_splits, rank, size_at, sum_by, total_size, total_value, Ladder,
};
use crate::level::{levels_view, Level, LevelView};
use crate::snapshot::{rows_plain, rows_view, OrderBookInfo, OrderBookSnapshot, SnapshotLevel};
use vstd::prelude::*;

verus! {

/// How many levels a request for `count` gets of a ladder of `len` levels.  A
/// negative count asks for all of them.
pub open spec fn limit(count: int, len: int) -> int {
    if count < 0 || count > len {
        len
    } else {
        count
    }
}

/// The `n` highest-priced levels of an ascending sequence, highest first.
pub open spec fn highest_first(s: Seq<LevelView>, n: int) -> Seq<LevelView> {
    Seq::new(n as nat, |i: int| s[s.len() - 1 - i])
}

/// The `n` lowest-priced levels of an ascending sequence, highest first.
pub open spec fn lowest_reversed(s: Seq<LevelView>, n: int) -> Seq<LevelView> {
    Seq::new(n as nat, |i: int| s[n - 1 - i])
}

/// The highest price of an ascending sequence; zero where it is empty.
pub open spec fn highest_price(s: Seq<LevelView>) -> real {
    if s.len() == 0 {
        0real
    } else {
        s.last().price
    }
}

/// The lowest price of an ascending sequence; zero where it is empty.
pub open spec fn lowest_price(s: Seq<LevelView>) -> real {
    if s.len() == 0 {
        0real
    } else {
        s[0].price
    }
}

/// How many levels of `s` are priced at or below `p`.
pub open spec fn rank_through(s: Seq<LevelView>, p: real) -> int {
    rank(s, p) + if found(s, p) is Some {
        1int
    } else {
        0int
    }
}

/// The levels of an ascending sequence that are priced from `lo` to `hi`, both
/// included.
pub open spec fn window(s: Seq<LevelView>, lo: real, hi: real) -> Seq<LevelView> {
    s.subrange(rank(s, lo), rank_through(s, hi))
}

/// Each level with the sums of the sizes and of the values up to and including
/// it.
pub open spec fn running(w: Seq<LevelView>) -> Seq<LevelView> {
    Seq::new(
        w.len(),
        |k: int|
            LevelView {
                price: w[k].price,
                size: total_size(w.take(k + 1)),
                value: total_value(w.take(k + 1)),
            },
    )
}

/// The window is well defined, and holds the levels priced within the bounds
/// and no others.
pub proof fn lemma_window(s: Seq<LevelView>, lo: real, hi: real)
    requires
        ascending(s),
        lo <= hi,
    ensures
        0 <= rank(s, lo) <= rank_through(s, hi) <= s.len(),
        forall|i: int|
            0 <= i < s.len() ==> (rank(s, lo) <= i < rank_through(s, hi) <==> lo <= (
            #[trigger] s[i]).price <= hi),
{
    lemma_rank_splits(s, lo);
    lemma_rank_splits(s, hi);
    let a = rank(s, lo);
    let b = rank(s, hi);
    if a > b {
        assert(s[b].price < lo);
    }
    if b < s.len() && s[b].price != hi {
        assert(found(s, hi) is None);
    }
    assert forall|i: int| 0 <= i < s.len() implies (a <= i < rank_through(s, hi) <==> lo <= (
    #[trigger] s[i]).price <= hi) by {
        if i > b {
            assert(s[b].price < s[i].price);
        }
    }
}

/// The price half way between the highest of `bids` and the lowest of `asks`.
pub open spec fn mid_price(bids: Seq<LevelView>, asks: Seq<LevelView>) -> real {
    (highest_price(bids) + lowest_price(asks)) / 2real
}

/// The bin of a level at distance `d` from the mid price, for `n` bins of width
/// `w`: the number of whole widths in the distance, a negative distance
/// counting as none.  There is no bin beyond the `n`th, nor for a width that is
/// not positive.
pub open spec fn heat_bin(d: real, w: real, n: int) -> Option<int> {
    if w > 0real {
        let k = (d / w).floor();
        let k = if k < 0 {
            0int
        } else {
            k
        };
        if k < n {
            Some(k)
        } else {
            None
        }
    } else {
        None
    }
}

/// How far a level of the given side lies from the mid price, outwards.
pub open spec fn distance(mid: real, price: real, bid_side: bool) -> real {
    if bid_side {
        mid - price
    } else {
        price - mid
    }
}

/// What a level adds to bin `k`: its size where it falls into that bin.
pub open spec fn in_bin(mid: real, w: real, n: int, k: int, bid_side: bool) -> spec_fn(
    LevelView,
) -> real {
    |l: LevelView|
        if heat_bin(distance(mid, l.price, bid_side), w, n) == Some(k) {
            l.size
        } else {
            0real
        }
}

/// The depth histogram of a book around its mid price: `n` bid bins, the
/// outermost first, then `n` ask bins, the innermost first.  A bin is
/// `step_percent` hundredths of the mid price wide.
pub open spec fn heatmap(b: BookView, n: int, step_percent: real) -> Seq<real> {
    let mid = mid_price(b.bid.levels, b.ask.levels);
    let w = mid * (step_percent / 100real);
    Seq::new(
        (2 * n) as nat,
        |i: int|
            if i < n {
                sum_by(b.bid.levels, in_bin(mid, w, n, n - 1 - i, true))
            } else {
                sum_by(b.ask.levels, in_bin(mid, w, n, i - n, false))
            },
    )
}

/// The price of the `k`th bucket below the mid price, counted from zero: the
/// grid line at or below the mid price, then one bucket width less each time,
/// each step rounded to the scale of the grid.
pub open spec fn bid_bucket(mid: real, g: real, k: nat) -> real
    decreases k,
{
    if k == 0 {
        round_at(group_spec(mid, g, true), scale_of(g), Rounding::HalfUp)
    } else {
        round_at(bid_bucket(mid, g, (k - 1) as nat) - g, scale_of(g), Rounding::HalfUp)
    }
}

/// The price of the `k`th bucket above the mid price, counted from zero: the
/// grid line at or above the mid price, then one bucket width more each time,
/// each step rounded to the scale of the grid.
pub open spec fn ask_bucket(mid: real, g: real, k: nat) -> real
    decreases k,
{
    if k == 0 {
        round_at(group_spec(mid, g, false), scale_of(g), Rounding::HalfUp)
    } else {
        round_at(ask_bucket(mid, g, (k - 1) as nat) + g, scale_of(g), Rounding::HalfUp)
    }
}

/// The row of the bucket at `price`: its aggregate size, zero where the
/// grouped ladder has no such bucket, and no value.
pub open spec fn bucket_row(grouped: Seq<LevelView>, price: real) -> LevelView {
    LevelView { price, size: size_at(grouped, price), value: 0real }
}

/// The `n` bid buckets next to the mid price of the grouped ladders, in
/// ascending order of price: the one furthest from the mid price first.
pub open spec fn bid_rows(b: BookView, n: int) -> Seq<LevelView> {
    let mid = mid_price(b.bid.grouped, b.ask.grouped);
    Seq::new(
        n as nat,
        |i: int| bucket_row(b.bid.grouped, bid_bucket(mid, b.group_size, (n - 1 - i) as nat)),
    )
}

/// The `n` ask buckets next to the mid price of the grouped ladders, in
/// ascending order of price: the one nearest to the mid price first.
pub open spec fn ask_rows(b: BookView, n: int) -> Seq<LevelView> {
    let mid = mid_price(b.bid.grouped, b.ask.grouped);
    Seq::new(n as nat, |i: int| bucket_row(b.ask.grouped, ask_bucket(mid, b.group_size, i as nat)))
}

/// Every level of the sequence is well formed.
pub open spec fn all_wf(v: Seq<Level>) -> bool {
    forall|i: int| 0 <= i < v.len() ==> (#[trigger] v[i]).wf()
}

/// The number of levels that a request for `count` gets.
fn limit_of(count: i32, len: usize) -> (n: usize)
    ensures
        n == limit(count as int, len as int),
{
    if count < 0 {
        len
    } else {
        let c = count as usize;
        if c > len {
            len
        } else {
            c
        }
    }
}

/// The `count` highest-priced levels of a ladder, highest first.
fn top_levels(ladder: &Ladder, count: i32) -> (r: Vec<Level>)
    requires
        ladder.wf(),
    ensures
        levels_view(r@) == highest_first(ladder@, limit(count as int, ladder@.len() as int)),
        all_wf(r@),
{
    let len = ladder.len();
    let n = limit_of(count, len);
    let mut out: Vec<Level> = Vec::new();
    let mut i: usize = 0;
    while i < n
        invariant
            ladder.wf(),
            len == ladder@.len(),
            0 <= i <= n <= len,
            out@.len() == i,
            all_wf(out@),
            forall|j: int| 0 <= j < i ==> (#[trigger] out@[j])@ == ladder@[len - 1 - j],
        decreases n - i,
    {
        out.push(ladder.level(len - 1 - i).clone());
        i = i + 1;
    }
    assert(levels_view(out@) =~= highest_first(ladder@, n as int));
    out
}

/// The `count` lowest-priced levels of a ladder, highest first.
fn bottom_levels(ladder: &Ladder, count: i32) -> (r: Vec<Level>)
    requires
        ladder.wf(),
    ensures
        levels_view(r@) == lowest_reversed(ladder@, limit(count as int, ladder@.len() as int)),
        all_wf(r@),
{
    let len = ladder.len();
    let n = limit_of(count, len);
    let mut out: Vec<Level> = Vec::new();
    let mut i: usize = 0;
    while i < n
        invariant
            ladder.wf(),
            len == ladder@.len(),
            0 <= i <= n <= len,
            out@.len() == i,
            all_wf(out@),
            forall|j: int| 0 <= j < i ==> (#[trigger] out@[j])@ == ladder@[n - 1 - j],
        decreases n - i,
    {
        out.push(ladder.level(n - 1 - i).clone());
        i = i + 1;
    }
    assert(levels_view(out@) =~= lowest_reversed(ladder@, n as int));
    out
}

/// The highest price of a ladder; zero where it is empty.
fn top_price(ladder: &Ladder) -> (r: Decimal)
    requires
        ladder.wf(),
    ensures
        r@ == highest_price(ladder@),
        r.wf(),
{
    let len = ladder.len();
    if len == 0 {
        Decimal::zero()
    } else {
        ladder.level(len - 1).price.clone()
    }
}

/// The lowest price of a ladder; zero where it is empty.
fn bottom_price(ladder: &Ladder) -> (r: Decimal)
    requires
        ladder.wf(),
    ensures
        r@ == lowest_price(ladder@),
        r.wf(),
{
    if ladder.len() == 0 {
        Decimal::zero()
    } else {
        ladder.level(0).price.clone()
    }
}

/// The running sums over the levels of a ladder from index `from` up to, not
/// including, index `to`: walked upwards, or downwards for `descending`.
fn cumulate(ladder: &Ladder, from: usize, to: usize, descending: bool) -> (r: Vec<SnapshotLevel>)
    requires
        ladder.wf(),
        from <= to <= ladder@.len(),
    ensures
        rows_view(r@) == running(
            if descending {
                ladder@.subrange(from as int, to as int).reverse()
            } else {
                ladder@.subrange(from as int, to as int)
            },
        ),
        rows_plain(r@),
{
    let ghost w = if descending {
        ladder@.subrange(from as int, to as int).reverse()
    } else {
        ladder@.subrange(from as int, to as int)
    };
    let n = to - from;
    let mut out: Vec<SnapshotLevel> = Vec::new();
    let mut size = Decimal::zero();
    let mut value = Decimal::zero();
    let mut k: usize = 0;
    assert(w.take(0) == Seq::<LevelView>::empty());
    while k < n
        invariant
            ladder.wf(),
            from <= to <= ladder@.len(),
            n == to - from,
            w.len() == n,
            forall|j: int|
                0 <= j < n ==> #[trigger] w[j] == ladder@[if descending {
                    to - 1 - j
                } else {
                    from + j
                }],
            0 <= k <= n,
            out@.len() == k,
            rows_plain(out@),
            size@ == total_size(w.take(k as int)),
            value@ == total_value(w.take(k as int)),
            size.wf(),
            value.within(2),
            forall|j: int| 0 <= j < k ==> (#[trigger] out@[j])@ == running(w)[j],
        decreases n - k,
    {
        let level = if descending {
            ladder.level(to - 1 - k)
        } else {
            ladder.level(from + k)
        };
        assert(level@ == w[k as int]);
        assert(w.take(k + 1).drop_last() == w.take(k as int));
        size = size.plus(&level.size);
        value = value.plus(&level.value);
        out.push(
            SnapshotLevel {
                price: level.price.clone(),
                total_size: size.clone(),
                total_value: value.clone(),
                relative_size: 0,
            },
        );
        k = k + 1;
    }
    assert(rows_view(out@) =~= running(w));
    out
}

/// The bins of one side, the innermost first.
fn side_bins(ladder: &Ladder, mid: &Decimal, width: &Decimal, n: usize, bid_side: bool) -> (r: Vec<
    Decimal,
>)
    requires
        ladder.wf(),
        mid.within(2),
        width.within(4),
    ensures
        r@.len() == n,
        forall|k: int|
            0 <= k < n ==> (#[trigger] r@[k])@ == sum_by(
                ladder@,
                in_bin(mid@, width@, n as int, k, bid_side),
            ),
        forall|k: int| 0 <= k < n ==> (#[trigger] r@[k]).wf(),
{
    let zero = Decimal::zero();
    let mut bins: Vec<Decimal> = Vec::new();
    let mut k: usize = 0;
    assert(ladder@.take(0) == Seq::<LevelView>::empty());
    while k < n
        invariant
            0 <= k <= n,
            bins@.len() == k,
            forall|j: int| 0 <= j < k ==> (#[trigger] bins@[j])@ == 0real,
            forall|j: int| 0 <= j < k ==> (#[trigger] bins@[j]).wf(),
        decreases n - k,
    {
        bins.push(Decimal::zero());
        k = k + 1;
    }
    let usable = zero.lt(width);
    let mut i: usize = 0;
    while i < ladder.len()
        invariant
            ladder.wf(),
            mid.within(2),
            width.within(4),
            zero@ == 0real,
            zero.scale == 0,
            usable == (width@ > 0real),
            0 <= i <= ladder@.len(),
            bins@.len() == n,
            forall|j: int|
                0 <= j < n ==> (#[trigger] bins@[j])@ == sum_by(
                    ladder@.take(i as int),
                    in_bin(mid@, width@, n as int, j, bid_side),
                ),
            forall|j: int| 0 <= j < n ==> (#[trigger] bins@[j]).wf(),
        decreases ladder@.len() - i,
    {
        let level = ladder.level(i);
        assert(ladder@.take(i + 1).drop_last() == ladder@.take(i as int));
        assert(ladder@.take(i + 1).last() == level@);
        let ghost d = distance(mid@, level@.price, bid_side);
        let mut hit: Option<usize> = None;
        if usable {
            let away = if bid_side {
                mid.minus(&level.price)
            } else {
                level.price.minus(mid)
            };
            let steps = away.quotient_floor(width);
            if steps.lt(&zero) {
                if 0 < n {
                    hit = Some(0);
                }
            } else {
                match steps.to_index() {
                    Some(u) => {
                        if u < n {
                            hit = Some(u);
                        }
                    },
                    None => {},
                }
            }
        }
        assert(match hit {
            Some(u) => heat_bin(d, width@, n as int) == Some(u as int),
            None => heat_bin(d, width@, n as int) is None,
        });
        match hit {
            Some(u) => {
                let sum = bins[u].plus(&level.size);
                bins.set(u, sum);
            },
            None => {},
        }
        i = i + 1;
    }
    assert(ladder@.take(i as int) == ladder@);
    bins
}

/// The prices of the `count` buckets next to the mid price on one side, the
/// nearest first.
fn bucket_prices(mid: &Decimal, group_size: &Decimal, count: usize, bid_side: bool) -> (r: Vec<
    Decimal,
>)
    requires
        mid.within(2),
        group_size.wf(),
        grid_step(group_size@) > 0real,
    ensures
        r@.len() == count,
        forall|k: int| 0 <= k < count ==> (#[trigger] r@[k]).wf(),
        forall|k: int|
            0 <= k < count ==> (#[trigger] r@[k])@ == if bid_side {
                bid_bucket(mid@, group_size@, k as nat)
            } else {
                ask_bucket(mid@, group_size@, k as nat)
            },
{
    proof {
        lemma_grid_step_sign(group_size@);
    }
    let scale = value_to_scale(group_size);
    let mut next = group(mid, group_size, bid_side);
    let mut prices: Vec<Decimal> = Vec::new();
    let mut k: usize = 0;
    while k < count
        invariant
            group_size.wf(),
            scale == scale_of(group_size@),
            0 <= scale <= crate::decimal::MAX_SCALE,
            0 <= k <= count,
            prices@.len() == k,
            next.wf(),
            round_at(next@, scale as int, Rounding::HalfUp) == if bid_side {
                bid_bucket(mid@, group_size@, k as nat)
            } else {
                ask_bucket(mid@, group_size@, k as nat)
            },
            forall|j: int| 0 <= j < k ==> (#[trigger] prices@[j]).wf(),
            forall|j: int|
                0 <= j < k ==> (#[trigger] prices@[j])@ == if bid_side {
                    bid_bucket(mid@, group_size@, j as nat)
                } else {
                    ask_bucket(mid@, group_size@, j as nat)
                },
        decreases count - k,
    {
        let price = next.round(scale, Rounding::HalfUp);
        next = if bid_side {
            price.minus(group_size)
        } else {
            price.plus(group_size)
        };
        prices.push(price);
        k = k + 1;
    }
    prices
}

/// The row of the bucket at `price`.
fn row_of(grouped: &Ladder, price: &Decimal) -> (r: SnapshotLevel)
    requires
        grouped.wf(),
        price.wf(),
    ensures
        r@ == bucket_row(grouped@, price@),
        r.relative_size == 0,
{
    let size = match grouped.get(price) {
        Some(e) => e.size.clone(),
        None => Decimal::zero(),
    };
    SnapshotLevel {
        price: price.clone(),
        total_size: size,
        total_value: Decimal::zero(),
        relative_size: 0,
    }
}

impl OrderBook {
    /// A window of `count` buckets on each side of the mid price of the
    /// grouped ladders, every bucket present whether or not it holds
    /// liquidity.  Bids and asks both come in ascending order of price.  The
    /// totals, the spread of the raw ladders and the sequence number go with
    /// it; the time is zero and the running sums are empty.
    pub fn get_grouped_snapshot(&self, count: usize) -> (r: OrderBookSnapshot)
        requires
            self.wf(),
        ensures
            r.instrument@ == self@.instrument,
            r.time == 0,
            rows_view(r.bids@) == bid_rows(self@, count as int),
            rows_view(r.asks@) == ask_rows(self@, count as int),
            rows_plain(r.bids@),
            rows_plain(r.asks@),
            r.cum_bid_values@.len() == 0,
            r.cum_ask_values@.len() == 0,
            r.info.bids_total@ == self@.bid.total,
            r.info.bids_value_total@ == self@.bid.value_total,
            r.info.asks_total@ == self@.ask.total,
            r.info.asks_value_total@ == self@.ask.value_total,
            r.info.spread@ == lowest_price(self@.ask.levels) - highest_price(self@.bid.levels),
            r.info.sequence == self.sequence,
    {
        let best_bid = top_price(&self.grouped_bids);
        let best_ask = bottom_price(&self.grouped_asks);
        let mid_price = best_bid.plus(&best_ask).times(&Decimal::half());
        proof {
            let t = best_bid@ + best_ask@;
            assert(t * (1real / 2real) == t / 2real) by (nonlinear_arith);
        }
        let bid_groups = bucket_prices(&mid_price, &self.group_size, count, true);
        let ask_groups = bucket_prices(&mid_price, &self.group_size, count, false);
        let mut bids: Vec<SnapshotLevel> = Vec::new();
        let mut asks: Vec<SnapshotLevel> = Vec::new();
        let mut i: usize = 0;
        while i < count
            invariant
                self.wf(),
                0 <= i <= count,
                bid_groups@.len() == count,
                ask_groups@.len() == count,
                forall|k: int| 0 <= k < count ==> (#[trigger] bid_groups@[k]).wf(),
                forall|k: int| 0 <= k < count ==> (#[trigger] ask_groups@[k]).wf(),
                bids@.len() == i,
                asks@.len() == i,
                rows_plain(bids@),
                rows_plain(asks@),
                forall|j: int|
                    0 <= j < i ==> (#[trigger] bids@[j])@ == bucket_row(
                        self.grouped_bids@,
                        bid_groups@[count - 1 - j]@,
                    ),
                forall|j: int|
                    0 <= j < i ==> (#[trigger] asks@[j])@ == bucket_row(
                        self.grouped_asks@,
                        ask_groups@[j]@,
                    ),
            decreases count - i,
        {
            bids.push(row_of(&self.grouped_bids, &bid_groups[count - 1 - i]));
            asks.push(row_of(&self.grouped_asks, &ask_groups[i]));
            i = i + 1;
        }
        assert(rows_view(bids@) =~= bid_rows(self@, count as int));
        assert(rows_view(asks@) =~= ask_rows(self@, count as int));
        OrderBookSnapshot {
            instrument: self.instrument.clone(),
            bids,
            time: 0,
            asks,
            info: OrderBookInfo {
                bids_total: self.bids_total.clone(),
                bids_value_total: self.bids_value_total.clone(),
                asks_total: self.asks_total.clone(),
                asks_value_total: self.asks_value_total.clone(),
                spread: self.get_spread(),
                sequence: self.sequence,
            },
            cum_ask_values: Vec::new(),
            cum_bid_values: Vec::new(),
        }
    }

    /// [`OrderBook::get_grouped_snapshot`] under its other name.
    pub fn get_grouped_snapshot_new(&self, count: usize) -> (r: OrderBookSnapshot)
        requires
            self.wf(),
        ensures
            r.instrument@ == self@.instrument,
            r.time == 0,
            rows_view(r.bids@) == bid_rows(self@, count as int),
            rows_view(r.asks@) == ask_rows(self@, count as int),
            rows_plain(r.bids@),
            rows_plain(r.asks@),
            r.cum_bid_values@.len() == 0,
            r.cum_ask_values@.len() == 0,
            r.info.bids_total@ == self@.bid.total,
            r.info.bids_value_total@ == self@.bid.value_total,
            r.info.asks_total@ == self@.ask.total,
            r.info.asks_value_total@ == self@.ask.value_total,
            r.info.spread@ == lowest_price(self@.ask.levels) - highest_price(self@.bid.levels),
            r.info.sequence == self.sequence,
    {
        self.get_grouped_snapshot(count)
    }

    /// The depth histogram of the book around its mid price: `total_count` bid
    /// bins, the outermost first, then `total_count` ask bins, the innermost
    /// first.  A bin collects the sizes of the levels that lie as many whole
    /// steps from the mid price as the bin's number says; a step is
    /// `step_percent` hundredths of the mid price.  Levels further out than the
    /// last bin are left out.  For a step that is not positive every bin is
    /// zero.
    pub fn get_heatmap_snapshot_levels(&self, total_count: usize, step_percent: &Decimal) -> (r:
        Vec<Decimal>)
        requires
            self.wf(),
            step_percent.wf(),
        ensures
            decimals_view(r@) == heatmap(self@, total_count as int, step_percent@),
    {
        let highest_bid = self.get_best_bid();
        let lowest_ask = self.get_best_ask();
        let mid = highest_bid.plus(&lowest_ask).times(&Decimal::half());
        let percent_step = step_percent.times(&Decimal::hundredth());
        let width = mid.times(&percent_step);
        proof {
            let t = highest_bid@ + lowest_ask@;
            assert(t * (1real / 2real) == t / 2real) by (nonlinear_arith);
            let p = step_percent@;
            assert(p * (1real / 100real) == p / 100real) by (nonlinear_arith);
        }
        let bid_sizes = side_bins(&self.bids, &mid, &width, total_count, true);
        let ask_sizes = side_bins(&self.asks, &mid, &width, total_count, false);
        let mut out: Vec<Decimal> = Vec::new();
        let mut i: usize = 0;
        while i < total_count
            invariant
                0 <= i <= total_count,
                bid_sizes@.len() == total_count,
                out@.len() == i,
                forall|j: int| 0 <= j < i ==> (#[trigger] out@[j])@ == bid_sizes@[total_count - 1 - j]@,
            decreases total_count - i,
        {
            out.push(bid_sizes[total_count - 1 - i].clone());
            i = i + 1;
        }
        let mut k: usize = 0;
        while k < total_count
            invariant
                0 <= k <= total_count,
                bid_sizes@.len() == total_count,
                ask_sizes@.len() == total_count,
                out@.len() == total_count + k,
                forall|j: int|
                    0 <= j < total_count ==> (#[trigger] out@[j])@ == bid_sizes@[total_count - 1
                        - j]@,
                forall|j: int| 0 <= j < k ==> (#[trigger] out@[total_count + j])@ == ask_sizes@[j]@,
            decreases total_count - k,
        {
            out.push(ask_sizes[k].clone());
            k = k + 1;
        }
        assert(decimals_view(out@) =~= heatmap(self@, total_count as int, step_percent@)) by {
            let h = heatmap(self@, total_count as int, step_percent@);
            assert(h.len() == 2 * total_count);
            assert forall|j: int| 0 <= j < out@.len() implies decimals_view(out@)[j] == h[j] by {
                if j >= total_count {
                    assert(out@[total_count + (j - total_count)]@ == ask_sizes@[j - total_count]@);
                }
            }
        }
        out
    }

    /// The running sums of size and value over the levels of one side that are
    /// priced from `start_value` to `end_value`, both included: bids from the
    /// highest price down, asks from the lowest price up.
    pub fn get_cumulative_value(
        &self,
        order_type: OrderType,
        start_value: &Decimal,
        end_value: &Decimal,
    ) -> (r: Vec<SnapshotLevel>)
        requires
            self.wf(),
            start_value.wf(),
            end_value.wf(),
            start_value@ <= end_value@,
        ensures
            rows_view(r@) == running(
                match order_type {
                    OrderType::Bid => window(
                        self@.bid.levels,
                        start_value@,
                        end_value@,
                    ).reverse(),
                    OrderType::Ask => window(self@.ask.levels, start_value@, end_value@),
                },
            ),
            rows_plain(r@),
    {
        let ladder = match order_type {
            OrderType::Bid => &self.bids,
            OrderType::Ask => &self.asks,
        };
        proof {
            lemma_window(ladder@, start_value@, end_value@);
        }
        let from = ladder.position(start_value);
        let at = ladder.position(end_value);
        let mut to = at;
        if at < ladder.len() {
            if ladder.level(at).price.same(end_value) {
                to = at + 1;
            }
        }
        match order_type {
            OrderType::Bid => cumulate(ladder, from, to, true),
            OrderType::Ask => cumulate(ladder, from, to, false),
        }
    }

    /// The top of the book: the `count` highest bids, highest first, and the
    /// `count` lowest asks, highest first, so that the two read as one ladder
    /// from the top down.  A side with fewer levels gives them all.
    pub fn get_levels(&self, count: i32) -> (r: (Vec<Level>, Vec<Level>))
        requires
            self.wf(),
        ensures
            levels_view(r.0@) == highest_first(
                self@.bid.levels,
                limit(count as int, self@.bid.levels.len() as int),
            ),
            levels_view(r.1@) == lowest_reversed(
                self@.ask.levels,
                limit(count as int, self@.ask.levels.len() as int),
            ),
            all_wf(r.0@),
            all_wf(r.1@),
    {
        let asks = bottom_levels(&self.asks, count);
        let bids = top_levels(&self.bids, count);
        (bids, asks)
    }

    /// As [`OrderBook::get_levels`], of the grouped ladders: each level is a
    /// bucket, with its aggregate size and the product of the two.
    pub fn get_grouped_levels(&self, count: i32) -> (r: (Vec<Level>, Vec<Level>))
        requires
            self.wf(),
        ensures
            levels_view(r.0@) == highest_first(
                self@.bid.grouped,
                limit(count as int, self@.bid.grouped.len() as int),
            ),
            levels_view(r.1@) == lowest_reversed(
                self@.ask.grouped,
                limit(count as int, self@.ask.grouped.len() as int),
            ),
            all_wf(r.0@),
            all_wf(r.1@),
    {
        let asks = bottom_levels(&self.grouped_asks, count);
        let bids = top_levels(&self.grouped_bids, count);
        (bids, asks)
    }

    /// The highest bid price; zero for a book without bids.
    pub fn get_best_bid(&self) -> (r: Decimal)
        requires
            self.wf(),
        ensures
            r@ == highest_price(self@.bid.levels),
            r.wf(),
    {
        top_price(&self.bids)
    }

    /// The lowest ask price; zero for a book without asks.
    pub fn get_best_ask(&self) -> (r: Decimal)
        requires
            self.wf(),
        ensures
            r@ == lowest_price(self@.ask.levels),
            r.wf(),
    {
        bottom_price(&self.asks)
    }

    /// The best ask less the best bid.
    pub fn get_spread(&self) -> (r: Decimal)
        requires
            self.wf(),
        ensures
            r@ == lowest_price(self@.ask.levels) - highest_price(self@.bid.levels),
            r.wf(),
    {
        let bid = self.get_best_bid();
        let ask = self.get_best_ask();
        ask.minus(&bid)
    }
}

} // verus!
