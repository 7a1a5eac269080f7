//! One side of a book: its levels in ascending order of price, no price twice.

use crate::decimal::Decimal;
use crate::level::{Level, LevelView};
use vstd::prelude::*;

verus! {

/// Prices strictly ascend along the sequence.
pub open spec fn ascending(s: Seq<LevelView>) -> bool {
    forall|i: int, j: int| 0 <= i < j < s.len() ==> s[i].price < s[j].price
}

/// How many levels of `s` are priced below `p`.  In an ascending sequence this
/// is where the level at `p` stands, or would stand.
pub open spec fn rank(s: Seq<LevelView>, p: real) -> int
    decreases s.len(),
{
    if s.len() == 0 {
        0
    } else {
        rank(s.drop_last(), p) + if s.last().price < p {
            1int
        } else {
            0int
        }
    }
}

/// The level at price `p`, if there is one.
pub open spec fn found(s: Seq<LevelView>, p: real) -> Option<LevelView> {
    let k = rank(s, p);
    if k < s.len() && s[k].price == p {
        Some(s[k])
    } else {
        None
    }
}

/// The size resting at price `p`: zero where there is no level.
pub open spec fn size_at(s: Seq<LevelView>, p: real) -> real {
    match found(s, p) {
        Some(l) => l.size,
        None => 0real,
    }
}

/// The value resting at price `p`: zero where there is no level.
pub open spec fn value_at(s: Seq<LevelView>, p: real) -> real {
    match found(s, p) {
        Some(l) => l.value,
        None => 0real,
    }
}

/// `s` with `l` in place of the level at its price, or added in price order.
pub open spec fn inserted(s: Seq<LevelView>, l: LevelView) -> Seq<LevelView> {
    let k = rank(s, l.price);
    if k < s.len() && s[k].price == l.price {
        s.update(k, l)
    } else {
        s.insert(k, l)
    }
}

/// `s` without the level at price `p`.
pub open spec fn removed(s: Seq<LevelView>, p: real) -> Seq<LevelView> {
    let k = rank(s, p);
    if k < s.len() && s[k].price == p {
        s.remove(k)
    } else {
        s
    }
}

/// The sum of `f` over the levels of `s`.
pub open spec fn sum_by(s: Seq<LevelView>, f: spec_fn(LevelView) -> real) -> real
    decreases s.len(),
{
    if s.len() == 0 {
        0real
    } else {
        sum_by(s.drop_last(), f) + f(s.last())
    }
}

/// The sum of the sizes.
pub open spec fn total_size(s: Seq<LevelView>) -> real {
    sum_by(s, |l: LevelView| l.size)
}

/// The sum of the values.
pub open spec fn total_value(s: Seq<LevelView>) -> real {
    sum_by(s, |l: LevelView| l.value)
}

/// The rank stays within the sequence.
pub proof fn lemma_rank_bounds(s: Seq<LevelView>, p: real)
    ensures
        0 <= rank(s, p) <= s.len(),
    decreases s.len(),
{
    if s.len() > 0 {
        lemma_rank_bounds(s.drop_last(), p);
    }
}

/// Where every level before `k` is priced below `p` and none from `k` on is,
/// the rank is `k`.
pub proof fn lemma_rank_is(s: Seq<LevelView>, p: real, k: int)
    requires
        0 <= k <= s.len(),
        forall|i: int| 0 <= i < k ==> s[i].price < p,
        forall|i: int| k <= i < s.len() ==> s[i].price >= p,
    ensures
        rank(s, p) == k,
    decreases s.len(),
{
    if s.len() > 0 {
        let t = s.drop_last();
        if k == s.len() {
            lemma_rank_is(t, p, k - 1);
        } else {
            lemma_rank_is(t, p, k);
        }
    }
}

/// In an ascending sequence the rank parts the levels below `p` from the rest.
pub proof fn lemma_rank_splits(s: Seq<LevelView>, p: real)
    requires
        ascending(s),
    ensures
        0 <= rank(s, p) <= s.len(),
        forall|i: int| 0 <= i < rank(s, p) ==> s[i].price < p,
        forall|i: int| rank(s, p) <= i < s.len() ==> s[i].price >= p,
    decreases s.len(),
{
    if s.len() > 0 {
        let t = s.drop_last();
        let n = s.len() - 1;
        assert(ascending(t)) by {
            assert forall|i: int, j: int| 0 <= i < j < t.len() implies t[i].price
                < t[j].price by {
                assert(s[i].price < s[j].price);
            }
        }
        lemma_rank_splits(t, p);
        let k = rank(t, p);
        if s.last().price < p {
            assert forall|i: int| 0 <= i < t.len() implies t[i].price < p by {
                assert(s[i].price < s[n].price);
            }
            if k < t.len() {
                assert(t[k].price >= p);
            }
            assert(rank(s, p) == n + 1);
            assert forall|i: int| 0 <= i < rank(s, p) implies s[i].price < p by {
                if i < n {
                    assert(s[i] == t[i]);
                }
            }
        } else {
            assert(rank(s, p) == k);
            assert forall|i: int| 0 <= i < rank(s, p) implies s[i].price < p by {
                assert(s[i] == t[i]);
            }
            assert forall|i: int| rank(s, p) <= i < s.len() implies s[i].price >= p by {
                if i < n {
                    assert(s[i] == t[i]);
                }
            }
        }
    }
}

/// A level stands in an ascending sequence exactly where `found` looks for it.
pub proof fn lemma_found_at(s: Seq<LevelView>, i: int)
    requires
        ascending(s),
        0 <= i < s.len(),
    ensures
        rank(s, s[i].price) == i,
        found(s, s[i].price) == Some(s[i]),
{
    assert forall|j: int| 0 <= j < i implies s[j].price < s[i].price by {}
    assert forall|j: int| i <= j < s.len() implies s[j].price >= s[i].price by {
        if i < j {
            assert(s[i].price < s[j].price);
        }
    }
    lemma_rank_is(s, s[i].price, i);
}

/// Where no level is priced `p`, none is found there.
pub proof fn lemma_found_none(s: Seq<LevelView>, p: real)
    requires
        forall|i: int| 0 <= i < s.len() ==> s[i].price != p,
    ensures
        found(s, p) is None,
{
    lemma_rank_bounds(s, p);
}

/// What an ascending sequence holds at a price is what `found` gives there.
pub proof fn lemma_found_same(s: Seq<LevelView>, t: Seq<LevelView>, p: real)
    requires
        ascending(s),
        ascending(t),
        forall|i: int| 0 <= i < s.len() && s[i].price == p ==> t.contains(s[i]),
        forall|j: int| 0 <= j < t.len() && t[j].price == p ==> s.contains(t[j]),
    ensures
        found(t, p) == found(s, p),
{
    lemma_rank_bounds(s, p);
    lemma_rank_bounds(t, p);
    let k = rank(s, p);
    let m = rank(t, p);
    if k < s.len() && s[k].price == p {
        assert(t.contains(s[k]));
        let j = choose|j: int| 0 <= j < t.len() && t[j] == s[k];
        lemma_found_at(t, j);
    } else if m < t.len() && t[m].price == p {
        assert(s.contains(t[m]));
        let i = choose|i: int| 0 <= i < s.len() && s[i] == t[m];
        lemma_found_at(s, i);
    }
}

/// A level put where the lower prices end and the higher ones begin keeps the
/// order.
proof fn lemma_insert_ascending(s: Seq<LevelView>, k: int, l: LevelView)
    requires
        ascending(s),
        0 <= k <= s.len(),
        forall|i: int| 0 <= i < k ==> s[i].price < l.price,
        forall|i: int| k <= i < s.len() ==> s[i].price > l.price,
    ensures
        ascending(s.insert(k, l)),
{
    let t = s.insert(k, l);
    assert forall|i: int, j: int| 0 <= i < j < t.len() implies t[i].price < t[j].price by {
        if i < k && j > k {
            assert(t[i] == s[i] && t[j] == s[j - 1]);
        } else if i < k && j < k {
            assert(s[i].price < s[j].price);
        } else if i > k {
            assert(s[i - 1].price < s[j - 1].price);
        }
    }
}

/// A level put in place of one of the same price keeps the order.
proof fn lemma_update_ascending(s: Seq<LevelView>, k: int, l: LevelView)
    requires
        ascending(s),
        0 <= k < s.len(),
        s[k].price == l.price,
    ensures
        ascending(s.update(k, l)),
{
    let t = s.update(k, l);
    assert forall|i: int, j: int| 0 <= i < j < t.len() implies t[i].price < t[j].price by {
        assert(s[i].price < s[j].price);
    }
}

/// Without one of its levels an ascending sequence still ascends.
proof fn lemma_remove_ascending(s: Seq<LevelView>, k: int)
    requires
        ascending(s),
        0 <= k < s.len(),
    ensures
        ascending(s.remove(k)),
{
    let t = s.remove(k);
    assert forall|i: int, j: int| 0 <= i < j < t.len() implies t[i].price < t[j].price by {
        let si = if i < k { i } else { i + 1 };
        let sj = if j < k { j } else { j + 1 };
        assert(s[si].price < s[sj].price);
    }
}

/// Putting a level in keeps the order and sets what is found at its price.
pub proof fn lemma_inserted(s: Seq<LevelView>, l: LevelView)
    requires
        ascending(s),
    ensures
        ascending(inserted(s, l)),
        found(inserted(s, l), l.price) == Some(l),
        inserted(s, l).len() == s.len() + if found(s, l.price) is Some {
            0int
        } else {
            1int
        },
{
    let k = rank(s, l.price);
    let t = inserted(s, l);
    lemma_rank_splits(s, l.price);
    if k < s.len() && s[k].price == l.price {
        lemma_update_ascending(s, k, l);
    } else {
        lemma_insert_ascending(s, k, l);
    }
    assert(t[k] == l);
    lemma_found_at(t, k);
}

/// Putting a level in changes nothing at the other prices.
pub proof fn lemma_inserted_elsewhere(s: Seq<LevelView>, l: LevelView, p: real)
    requires
        ascending(s),
        p != l.price,
    ensures
        found(inserted(s, l), p) == found(s, p),
{
    let k = rank(s, l.price);
    let t = inserted(s, l);
    lemma_rank_bounds(s, l.price);
    lemma_inserted(s, l);
    let hit = k < s.len() && s[k].price == l.price;
    assert forall|i: int| 0 <= i < s.len() && s[i].price == p implies t.contains(s[i]) by {
        if hit || i < k {
            assert(t[i] == s[i]);
        } else {
            assert(t[i + 1] == s[i]);
        }
    }
    assert forall|j: int| 0 <= j < t.len() && t[j].price == p implies s.contains(t[j]) by {
        if hit || j < k {
            assert(t[j] == s[j]);
        } else {
            assert(t[j] == s[j - 1]);
        }
    }
    lemma_found_same(s, t, p);
}

/// Taking a level out keeps the order and leaves nothing at its price.
pub proof fn lemma_removed(s: Seq<LevelView>, q: real)
    requires
        ascending(s),
    ensures
        ascending(removed(s, q)),
        found(removed(s, q), q) is None,
        removed(s, q).len() == s.len() - if found(s, q) is Some {
            1int
        } else {
            0int
        },
{
    let k = rank(s, q);
    let t = removed(s, q);
    lemma_rank_splits(s, q);
    if k < s.len() && s[k].price == q {
        lemma_remove_ascending(s, k);
        assert forall|j: int| 0 <= j < t.len() implies t[j].price != q by {
            if j < k {
                assert(t[j] == s[j]);
                assert(s[j].price < s[k].price);
            } else {
                assert(t[j] == s[j + 1]);
                assert(s[k].price < s[j + 1].price);
            }
        }
        lemma_found_none(t, q);
    }
}

/// Taking a level out changes nothing at the other prices.
pub proof fn lemma_removed_elsewhere(s: Seq<LevelView>, q: real, p: real)
    requires
        ascending(s),
        p != q,
    ensures
        found(removed(s, q), p) == found(s, p),
{
    let k = rank(s, q);
    let t = removed(s, q);
    lemma_rank_bounds(s, q);
    lemma_removed(s, q);
    if k < s.len() && s[k].price == q {
        assert forall|i: int| 0 <= i < s.len() && s[i].price == p implies t.contains(s[i]) by {
            if i < k {
                assert(t[i] == s[i]);
            } else {
                assert(t[i - 1] == s[i]);
            }
        }
        assert forall|j: int| 0 <= j < t.len() && t[j].price == p implies s.contains(t[j]) by {
            if j < k {
                assert(t[j] == s[j]);
            } else {
                assert(t[j] == s[j + 1]);
            }
        }
        lemma_found_same(s, t, p);
    }
}

/// Every level of a ladder that a level was put into is that level or one that
/// the ladder held before.
pub proof fn lemma_inserted_entries(s: Seq<LevelView>, l: LevelView)
    ensures
        forall|i: int|
            0 <= i < inserted(s, l).len() ==> (#[trigger] inserted(s, l)[i]) == l || s.contains(
                inserted(s, l)[i],
            ),
{
    let t = inserted(s, l);
    let k = rank(s, l.price);
    lemma_rank_bounds(s, l.price);
    assert forall|i: int| 0 <= i < t.len() implies (#[trigger] t[i]) == l || s.contains(
        t[i],
    ) by {
        if i != k {
            if k < s.len() && s[k].price == l.price {
                assert(t[i] == s[i]);
            } else if i < k {
                assert(t[i] == s[i]);
            } else {
                assert(t[i] == s[i - 1]);
            }
        }
    }
}

/// Every level of a ladder that a level was taken out of is one that the
/// ladder held before.
pub proof fn lemma_removed_entries(s: Seq<LevelView>, p: real)
    ensures
        forall|i: int|
            0 <= i < removed(s, p).len() ==> s.contains(#[trigger] removed(s, p)[i]),
{
    let t = removed(s, p);
    let k = rank(s, p);
    lemma_rank_bounds(s, p);
    assert forall|i: int| 0 <= i < t.len() implies s.contains(#[trigger] t[i]) by {
        if k < s.len() && s[k].price == p && i >= k {
            assert(t[i] == s[i + 1]);
        } else {
            assert(t[i] == s[i]);
        }
    }
}

/// A sum over a sequence with one more level is the sum plus that level's part.
pub proof fn lemma_sum_push(s: Seq<LevelView>, l: LevelView, f: spec_fn(LevelView) -> real)
    ensures
        sum_by(s.push(l), f) == sum_by(s, f) + f(l),
{
    assert(s.push(l).drop_last() == s);
}

/// A sum over two sequences joined is the sum of the two sums.
pub proof fn lemma_sum_concat(a: Seq<LevelView>, b: Seq<LevelView>, f: spec_fn(LevelView) -> real)
    ensures
        sum_by(a + b, f) == sum_by(a, f) + sum_by(b, f),
    decreases b.len(),
{
    if b.len() == 0 {
        assert(a + b == a);
    } else {
        lemma_sum_concat(a, b.drop_last(), f);
        assert((a + b).drop_last() == a + b.drop_last());
    }
}

/// A sum is the sum before an index, the part at the index, and the sum after.
pub proof fn lemma_sum_split(s: Seq<LevelView>, k: int, f: spec_fn(LevelView) -> real)
    requires
        0 <= k < s.len(),
    ensures
        sum_by(s, f) == sum_by(s.take(k), f) + f(s[k]) + sum_by(s.skip(k + 1), f),
{
    assert(s == s.take(k).push(s[k]) + s.skip(k + 1));
    lemma_sum_concat(s.take(k).push(s[k]), s.skip(k + 1), f);
    lemma_sum_push(s.take(k), s[k], f);
}

/// A sum is the sum before an index and the sum from it on.
pub proof fn lemma_sum_cut(s: Seq<LevelView>, k: int, f: spec_fn(LevelView) -> real)
    requires
        0 <= k <= s.len(),
    ensures
        sum_by(s, f) == sum_by(s.take(k), f) + sum_by(s.skip(k), f),
{
    assert(s == s.take(k) + s.skip(k));
    lemma_sum_concat(s.take(k), s.skip(k), f);
}

/// Putting a level in adds its part to a sum and takes out the part of the level
/// that it replaces.
pub proof fn lemma_sum_inserted(s: Seq<LevelView>, l: LevelView, f: spec_fn(LevelView) -> real)
    ensures
        sum_by(inserted(s, l), f) == sum_by(s, f) + f(l) - match found(s, l.price) {
            Some(o) => f(o),
            None => 0real,
        },
{
    let k = rank(s, l.price);
    let t = inserted(s, l);
    lemma_rank_bounds(s, l.price);
    if k < s.len() && s[k].price == l.price {
        lemma_sum_split(s, k, f);
        lemma_sum_split(t, k, f);
        assert(t.take(k) == s.take(k));
        assert(t.skip(k + 1) == s.skip(k + 1));
    } else {
        lemma_sum_cut(s, k, f);
        lemma_sum_split(t, k, f);
        assert(t.take(k) == s.take(k));
        assert(t.skip(k + 1) == s.skip(k));
    }
}

/// Taking a level out takes its part out of a sum.
pub proof fn lemma_sum_removed(s: Seq<LevelView>, p: real, f: spec_fn(LevelView) -> real)
    ensures
        sum_by(removed(s, p), f) == sum_by(s, f) - match found(s, p) {
            Some(o) => f(o),
            None => 0real,
        },
{
    let k = rank(s, p);
    let t = removed(s, p);
    lemma_rank_bounds(s, p);
    if k < s.len() && s[k].price == p {
        lemma_sum_split(s, k, f);
        lemma_sum_cut(t, k, f);
        assert(t.take(k) == s.take(k));
        assert(t.skip(k) == s.skip(k + 1));
    }
}

/// A sum of parts none of which is negative is at least each part.
pub proof fn lemma_sum_covers(s: Seq<LevelView>, k: int, f: spec_fn(LevelView) -> real)
    requires
        0 <= k < s.len(),
        forall|i: int| 0 <= i < s.len() ==> f(#[trigger] s[i]) >= 0real,
    ensures
        sum_by(s, f) >= f(s[k]),
        sum_by(s, f) >= 0real,
    decreases s.len(),
{
    let t = s.drop_last();
    assert forall|i: int| 0 <= i < t.len() implies f(#[trigger] t[i]) >= 0real by {
        assert(t[i] == s[i]);
    }
    lemma_sum_not_negative(t, f);
    if k < t.len() {
        lemma_sum_covers(t, k, f);
        assert(t[k] == s[k]);
    }
}

/// A sum of parts none of which is negative is not negative.
pub proof fn lemma_sum_not_negative(s: Seq<LevelView>, f: spec_fn(LevelView) -> real)
    requires
        forall|i: int| 0 <= i < s.len() ==> f(#[trigger] s[i]) >= 0real,
    ensures
        sum_by(s, f) >= 0real,
    decreases s.len(),
{
    if s.len() > 0 {
        let t = s.drop_last();
        assert forall|i: int| 0 <= i < t.len() implies f(#[trigger] t[i]) >= 0real by {
            assert(t[i] == s[i]);
        }
        lemma_sum_not_negative(t, f);
    }
}

/// One side of a book.
#[derive(Debug)]
pub struct Ladder {
    /// The levels, in ascending order of price.
    pub levels: Vec<Level>,
}

impl View for Ladder {
    type V = Seq<LevelView>;

    open spec fn view(&self) -> Seq<LevelView> {
        self.levels@.map_values(|l: Level| l@)
    }
}

impl Clone for Ladder {
    /// A copy with the same levels.
    fn clone(&self) -> (r: Self)
        ensures
            r@ == self@,
            r.wf() == self.wf(),
    {
        let mut levels: Vec<Level> = Vec::new();
        let mut i: usize = 0;
        while i < self.levels.len()
            invariant
                0 <= i <= self.levels.len(),
                levels@.len() == i,
                forall|j: int| 0 <= j < i ==> (#[trigger] levels@[j])@ == self.levels@[j]@,
                forall|j: int| 0 <= j < i ==> (#[trigger] levels@[j]).wf() == self.levels@[j].wf(),
            decreases self.levels.len() - i,
        {
            levels.push(self.levels[i].clone());
            i = i + 1;
        }
        let r = Ladder { levels };
        assert(r@ =~= self@);
        assert(r.wf() == self.wf()) by {
            if self.wf() {
                assert forall|j: int| 0 <= j < r.levels.len() implies (#[trigger] r.levels[j]).wf() by {
                    assert(self.levels[j].wf());
                }
            }
            if r.wf() {
                assert forall|j: int| 0 <= j < self.levels.len() implies (
                #[trigger] self.levels[j]).wf() by {
                    assert(r.levels[j].wf());
                }
            }
        }
        r
    }
}

impl Ladder {
    /// Every level is well formed and the prices strictly ascend.
    pub open spec fn wf(&self) -> bool {
        &&& forall|i: int| 0 <= i < self.levels.len() ==> (#[trigger] self.levels[i]).wf()
        &&& ascending(self@)
    }

    /// The ladder without levels.
    pub fn new() -> (r: Ladder)
        ensures
            r.wf(),
            r@ == Seq::<LevelView>::empty(),
    {
        let r = Ladder { levels: Vec::new() };
        assert(r@ == Seq::<LevelView>::empty());
        r
    }

    /// The number of levels.
    pub fn len(&self) -> (n: usize)
        ensures
            n == self@.len(),
    {
        self.levels.len()
    }

    /// The level at index `i`, counted from the lowest price.
    pub fn level(&self, i: usize) -> (l: &Level)
        requires
            self.wf(),
            i < self@.len(),
        ensures
            l@ == self@[i as int],
            l.wf(),
            *l == self.levels[i as int],
    {
        &self.levels[i]
    }

    /// Where the level at `price` stands, or would stand.
    pub fn position(&self, price: &Decimal) -> (k: usize)
        requires
            self.wf(),
            price.wf(),
        ensures
            k == rank(self@, price@),
            k <= self@.len(),
    {
        let mut lo: usize = 0;
        let mut hi: usize = self.levels.len();
        while lo < hi
            invariant
                self.wf(),
                price.wf(),
                0 <= lo <= hi <= self.levels.len(),
                forall|i: int| 0 <= i < lo ==> self@[i].price < price@,
                forall|i: int| hi <= i < self@.len() ==> self@[i].price >= price@,
            decreases hi - lo,
        {
            let mid = lo + (hi - lo) / 2;
            assert(self.levels[mid as int].wf());
            if self.levels[mid].price.lt(price) {
                assert forall|i: int| 0 <= i < mid + 1 implies self@[i].price < price@ by {
                    if i < mid {
                        assert(self@[i].price < self@[mid as int].price);
                    }
                }
                lo = mid + 1;
            } else {
                assert forall|i: int| mid <= i < self@.len() implies self@[i].price
                    >= price@ by {
                    if i > mid {
                        assert(self@[mid as int].price < self@[i].price);
                    }
                }
                hi = mid;
            }
        }
        proof {
            lemma_rank_is(self@, price@, lo as int);
        }
        lo
    }

    /// The level at `price`, if there is one.
    pub fn get(&self, price: &Decimal) -> (r: Option<&Level>)
        requires
            self.wf(),
            price.wf(),
        ensures
            match r {
                Some(l) => found(self@, price@) == Some(l@) && l.wf(),
                None => found(self@, price@) is None,
            },
    {
        let k = self.position(price);
        if k < self.levels.len() {
            assert(self.levels[k as int].wf());
            if self.levels[k].price.same(price) {
                return Some(&self.levels[k]);
            }
        }
        None
    }

    /// Puts `level` in, in place of the level at its price if there is one, and
    /// hands that one back.
    pub fn upsert(&mut self, level: Level) -> (prev: Option<Level>)
        requires
            old(self).wf(),
            level.wf(),
        ensures
            final(self).wf(),
            final(self)@ == inserted(old(self)@, level@),
            match prev {
                Some(l) => found(old(self)@, level@.price) == Some(l@) && l.wf(),
                None => found(old(self)@, level@.price) is None,
            },
    {
        let k = self.position(&level.price);
        let ghost before = self.levels@;
        let ghost lv = level@;
        proof {
            lemma_inserted(self@, level@);
        }
        let mut hit = false;
        if k < self.levels.len() {
            assert(self.levels[k as int].wf());
            hit = self.levels[k].price.same(&level.price);
        }
        if hit {
            let prev = self.levels.remove(k);
            self.levels.insert(k, level);
            assert(self.levels@ == before.update(k as int, level));
            assert(self@ == inserted(before.map_values(|l: Level| l@), lv));
            Some(prev)
        } else {
            self.levels.insert(k, level);
            assert(self@ == inserted(before.map_values(|l: Level| l@), lv));
            None
        }
    }

    /// Takes the level at `price` out, if there is one, and hands it back.
    pub fn take(&mut self, price: &Decimal) -> (gone: Option<Level>)
        requires
            old(self).wf(),
            price.wf(),
        ensures
            final(self).wf(),
            final(self)@ == removed(old(self)@, price@),
            match gone {
                Some(l) => found(old(self)@, price@) == Some(l@) && l.wf(),
                None => found(old(self)@, price@) is None,
            },
    {
        let k = self.position(price);
        let ghost before = self.levels@;
        proof {
            lemma_removed(self@, price@);
        }
        let mut hit = false;
        if k < self.levels.len() {
            assert(self.levels[k as int].wf());
            hit = self.levels[k].price.same(price);
        }
        if hit {
            let gone = self.levels.remove(k);
            assert(self@ == removed(before.map_values(|l: Level| l@), price@));
            Some(gone)
        } else {
            None
        }
    }
}

} // verus!
