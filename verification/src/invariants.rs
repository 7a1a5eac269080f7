//! What the operations on a book keep true: the running totals are the sums
//! over the levels, the grouped ladders are what the raw ladders group to, and
//! no bucket stays behind empty.

use crate::book::{
    bucket_size, grouping_of, in_bucket, level_of, no_empty_bucket, regrouped, sizes_not_negative,
    sizes_positive, BookView, SideView,
};
use crate::book_utils::{grid_step, group_spec};
use crate::decimal::{exp10, lemma_round_at_exact, pow10, Rounding};
use crate::ladder::{
    ascending, found, inserted, lemma_inserted, lemma_inserted_elsewhere, lemma_inserted_entries,
    lemma_rank_bounds, lemma_removed, lemma_removed_elsewhere, lemma_removed_entries,
    lemma_sum_covers, lemma_sum_inserted, lemma_sum_removed, rank, removed, size_at,
};
use crate::level::LevelView;
use crate::messages::UpdateView;
use vstd::prelude::*;

verus! {

/// Setting a level keeps both ladders of a side in order.
pub proof fn lemma_add_keeps_order(s: SideView, p: real, size: real, g: real, lower: bool)
    requires
        s.ordered(),
    ensures
        s.add(p, size, g, lower).ordered(),
{
    let b = group_spec(p, g, lower);
    lemma_inserted(s.levels, level_of(p, size));
    lemma_inserted(
        s.grouped,
        level_of(b, size_at(s.grouped, b) - size_at(s.levels, p) + size),
    );
}

/// Taking a level out keeps both ladders of a side in order.
pub proof fn lemma_remove_keeps_order(s: SideView, p: real, g: real, lower: bool)
    requires
        s.ordered(),
    ensures
        s.remove(p, g, lower).ordered(),
{
    let b = group_spec(p, g, lower);
    lemma_removed(s.levels, p);
    lemma_removed(s.grouped, b);
    if let Some(l) = found(s.levels, p) {
        if let Some(e) = found(s.grouped, b) {
            lemma_inserted(s.grouped, level_of(b, e.size - l.size));
        }
    }
}

/// Whatever update a book takes, its running totals stay the sums of the sizes
/// and of the values over its levels, on both sides.
pub proof fn lemma_update_keeps_totals(b: BookView, u: UpdateView)
    requires
        b.totals_ok(),
    ensures
        b.apply(u).totals_ok(),
{
    let g = b.group_size;
    lemma_remove_keeps_totals(b.bid, u.price, g, true);
    lemma_remove_keeps_totals(b.ask, u.price, g, false);
    lemma_add_keeps_totals(b.bid, u.price, u.size, g, true);
    lemma_add_keeps_totals(b.ask, u.price, u.size, g, false);
}

/// Whatever update a book without negative sizes takes, if the size that the
/// update sets is not negative either, the grouped ladders stay what the raw
/// ladders group to, and no size becomes negative.
pub proof fn lemma_update_keeps_sync(b: BookView, u: UpdateView)
    requires
        b.ordered(),
        b.in_sync(),
        b.sizes_not_negative(),
        u.size >= 0real,
    ensures
        b.apply(u).ordered(),
        b.apply(u).in_sync(),
        b.apply(u).sizes_not_negative(),
{
    let g = b.group_size;
    lemma_remove_keeps_order(b.bid, u.price, g, true);
    lemma_remove_keeps_order(b.ask, u.price, g, false);
    lemma_remove_keeps_sync(b.bid, u.price, g, true);
    lemma_remove_keeps_sync(b.ask, u.price, g, false);
    lemma_remove_keeps_sizes(b.bid.levels, u.price);
    lemma_remove_keeps_sizes(b.ask.levels, u.price);
    lemma_add_keeps_order(b.bid, u.price, u.size, g, true);
    lemma_add_keeps_order(b.ask, u.price, u.size, g, false);
    lemma_add_keeps_sync(b.bid, u.price, u.size, g, true);
    lemma_add_keeps_sync(b.ask, u.price, u.size, g, false);
    lemma_add_keeps_sizes(b.bid.levels, level_of(u.price, u.size));
    lemma_add_keeps_sizes(b.ask.levels, level_of(u.price, u.size));
}

/// After the grouped ladders were built anew they are what the raw ladders
/// group to, whatever the bucket width; the totals are untouched.
pub proof fn lemma_regroup_is_in_sync(b: BookView, g: real)
    ensures
        b.regroup(g).in_sync(),
        b.totals_ok() ==> b.regroup(g).totals_ok(),
        ascending(b.regroup(g).bid.grouped),
        ascending(b.regroup(g).ask.grouped),
{
    lemma_regrouped(b.bid.levels, g, true);
    lemma_regrouped(b.ask.levels, g, false);
}

/// Setting a level to a positive size leaves no bucket of size zero behind, in
/// a side that had none, whose buckets hold what its levels hold, and whose
/// sizes are not negative.
pub proof fn lemma_add_leaves_no_empty_bucket(s: SideView, p: real, size: real, g: real, lower: bool)
    requires
        s.ordered(),
        s.in_sync(g, lower),
        sizes_not_negative(s.levels),
        no_empty_bucket(s.grouped),
        size > 0real,
    ensures
        no_empty_bucket(s.add(p, size, g, lower).grouped),
{
    let t = s.add(p, size, g, lower);
    let b = group_spec(p, g, lower);
    let l = level_of(p, size);
    let e = level_of(b, size_at(s.grouped, b) - size_at(s.levels, p) + size);
    lemma_add_keeps_sync(s, p, size, g, lower);
    lemma_add_keeps_sizes(s.levels, l);
    lemma_inserted(s.levels, l);
    lemma_inserted(s.grouped, e);
    let k = rank(s.levels, p);
    lemma_rank_bounds(s.levels, p);
    assert(t.levels[k] == l);
    let f = in_bucket(b, g, lower);
    assert forall|i: int| 0 <= i < t.levels.len() implies f(#[trigger] t.levels[i]) >= 0real by {}
    lemma_sum_covers(t.levels, k, f);
    assert(size_at(t.grouped, b) == bucket_size(t.levels, b, g, lower));
    assert(e.size > 0real);
    lemma_inserted_entries(s.grouped, e);
    assert forall|i: int| 0 <= i < t.grouped.len() implies (#[trigger] t.grouped[i]).size
        != 0real by {
        if t.grouped[i] != e {
            let j = choose|j: int| 0 <= j < s.grouped.len() && s.grouped[j] == t.grouped[i];
            assert(s.grouped[j].size != 0real);
        }
    }
}

/// Taking a level out leaves no bucket of size zero behind, in a side that had
/// none.
pub proof fn lemma_remove_leaves_no_empty_bucket(s: SideView, p: real, g: real, lower: bool)
    requires
        no_empty_bucket(s.grouped),
    ensures
        no_empty_bucket(s.remove(p, g, lower).grouped),
{
    let t = s.remove(p, g, lower);
    let b = group_spec(p, g, lower);
    if let Some(l) = found(s.levels, p) {
        if let Some(e) = found(s.grouped, b) {
            let d = level_of(b, e.size - l.size);
            lemma_removed_entries(s.grouped, b);
            lemma_inserted_entries(s.grouped, d);
            assert forall|i: int| 0 <= i < t.grouped.len() implies (#[trigger] t.grouped[i]).size
                != 0real by {
                if e.size == l.size || t.grouped[i] != d {
                    let j = choose|j: int|
                        0 <= j < s.grouped.len() && s.grouped[j] == t.grouped[i];
                    assert(s.grouped[j].size != 0real);
                }
            }
        }
    }
}

/// The grouped ladder built from levels of positive size has buckets of
/// positive size only.
pub proof fn lemma_regrouped_positive(raw: Seq<LevelView>, g: real, lower: bool)
    requires
        sizes_positive(raw),
    ensures
        sizes_positive(regrouped(raw, g, lower)),
    decreases raw.len(),
{
    let t = regrouped(raw, g, lower);
    if raw.len() > 0 {
        let rest = regrouped(raw.drop_last(), g, lower);
        assert(sizes_positive(raw.drop_last())) by {
            assert forall|i: int| 0 <= i < raw.len() - 1 implies (#[trigger] raw.drop_last()[i]).size
                > 0real by {
                assert(raw.drop_last()[i] == raw[i]);
            }
        }
        lemma_regrouped_positive(raw.drop_last(), g, lower);
        let b = group_spec(raw.last().price, g, lower);
        let e = level_of(b, size_at(rest, b) + raw.last().size);
        lemma_rank_bounds(rest, b);
        assert(size_at(rest, b) >= 0real);
        assert(raw.last() == raw[raw.len() - 1]);
        lemma_inserted_entries(rest, e);
        assert forall|i: int| 0 <= i < t.len() implies (#[trigger] t[i]).size > 0real by {
            if t[i] != e {
                let j = choose|j: int| 0 <= j < rest.len() && rest[j] == t[i];
                assert(rest[j].size > 0real);
            }
        }
    }
}

/// A bucket width of one is usable.
pub proof fn lemma_unit_grid_step()
    ensures
        grid_step(1real) == 1real,
{
    reveal_with_fuel(pow10, 5);
    assert(exp10(4) == 10000real);
    lemma_round_at_exact(1real, 4, 10000, Rounding::HalfUp);
}

/// The grouped ladder built from the levels ascends, and every bucket holds
/// what the levels hold in it.
pub proof fn lemma_regrouped(raw: Seq<LevelView>, g: real, lower: bool)
    ensures
        ascending(regrouped(raw, g, lower)),
        grouping_of(raw, regrouped(raw, g, lower), g, lower),
    decreases raw.len(),
{
    let t = regrouped(raw, g, lower);
    if raw.len() == 0 {
        assert forall|c: real| #[trigger] size_at(t, c) == bucket_size(raw, c, g, lower) by {
            lemma_rank_bounds(t, c);
        }
    } else {
        let rest = regrouped(raw.drop_last(), g, lower);
        lemma_regrouped(raw.drop_last(), g, lower);
        let b = group_spec(raw.last().price, g, lower);
        let e = level_of(b, size_at(rest, b) + raw.last().size);
        lemma_inserted(rest, e);
        assert forall|c: real| #[trigger] size_at(t, c) == bucket_size(raw, c, g, lower) by {
            assert(size_at(rest, c) == bucket_size(raw.drop_last(), c, g, lower));
            if c != b {
                lemma_inserted_elsewhere(rest, e, c);
            }
        }
    }
}

/// Taking a level out keeps the running totals equal to the sums over the
/// levels.
pub proof fn lemma_remove_keeps_totals(s: SideView, p: real, g: real, lower: bool)
    requires
        s.totals_ok(),
    ensures
        s.remove(p, g, lower).totals_ok(),
{
    lemma_sum_removed(s.levels, p, |l: LevelView| l.size);
    lemma_sum_removed(s.levels, p, |l: LevelView| l.value);
}

/// Taking a level out leaves no negative size behind.
pub proof fn lemma_remove_keeps_sizes(s: Seq<LevelView>, p: real)
    requires
        sizes_not_negative(s),
    ensures
        sizes_not_negative(removed(s, p)),
{
    let t = removed(s, p);
    let k = rank(s, p);
    lemma_rank_bounds(s, p);
    assert forall|i: int| 0 <= i < t.len() implies (#[trigger] t[i]).size >= 0real by {
        if k < s.len() && s[k].price == p && i >= k {
            assert(t[i] == s[i + 1]);
        } else {
            assert(t[i] == s[i]);
        }
    }
}

/// Setting a level to a size that is not negative leaves no negative size
/// behind.
pub proof fn lemma_add_keeps_sizes(s: Seq<LevelView>, l: LevelView)
    requires
        sizes_not_negative(s),
        l.size >= 0real,
    ensures
        sizes_not_negative(inserted(s, l)),
{
    let t = inserted(s, l);
    let k = rank(s, l.price);
    lemma_rank_bounds(s, l.price);
    assert forall|i: int| 0 <= i < t.len() implies (#[trigger] t[i]).size >= 0real by {
        if i == k {
            assert(t[i] == l);
        } else if k < s.len() && s[k].price == l.price {
            assert(t[i] == s[i]);
        } else if i < k {
            assert(t[i] == s[i]);
        } else {
            assert(t[i] == s[i - 1]);
        }
    }
}

/// Taking a level out keeps the buckets equal to what the levels hold, as long
/// as no size is negative.
///
/// With sizes of both signs a bucket can be missing although levels rest in it
/// (their sizes cancel); taking one of them out then leaves the bucket
/// missing, while the levels that stay hold a size that is not zero.
pub proof fn lemma_remove_keeps_sync(s: SideView, p: real, g: real, lower: bool)
    requires
        s.ordered(),
        s.in_sync(g, lower),
        sizes_not_negative(s.levels),
    ensures
        s.remove(p, g, lower).in_sync(g, lower),
{
    let t = s.remove(p, g, lower);
    let b = group_spec(p, g, lower);
    let k = rank(s.levels, p);
    lemma_rank_bounds(s.levels, p);
    if let Some(l) = found(s.levels, p) {
        assert(size_at(s.grouped, b) == bucket_size(s.levels, b, g, lower));
        match found(s.grouped, b) {
            None => {
                let f = in_bucket(b, g, lower);
                assert forall|i: int| 0 <= i < s.levels.len() implies f(
                    #[trigger] s.levels[i],
                ) >= 0real by {}
                lemma_sum_covers(s.levels, k, f);
                assert(l.size == 0real);
            },
            Some(e) => {
                if e.size == l.size {
                    lemma_removed(s.grouped, b);
                } else {
                    lemma_inserted(s.grouped, level_of(b, e.size - l.size));
                }
            },
        }
        assert forall|c: real| #[trigger] size_at(t.grouped, c) == bucket_size(
            t.levels,
            c,
            g,
            lower,
        ) by {
            lemma_sum_removed(s.levels, p, in_bucket(c, g, lower));
            assert(size_at(s.grouped, c) == bucket_size(s.levels, c, g, lower));
            if c != b {
                match found(s.grouped, b) {
                    None => {},
                    Some(e) => {
                        if e.size == l.size {
                            lemma_removed_elsewhere(s.grouped, b, c);
                        } else {
                            lemma_inserted_elsewhere(
                                s.grouped,
                                level_of(b, e.size - l.size),
                                c,
                            );
                        }
                    },
                }
            }
        }
    }
}

/// Setting a level keeps the running totals equal to the sums over the levels.
pub proof fn lemma_add_keeps_totals(s: SideView, p: real, size: real, g: real, lower: bool)
    requires
        s.totals_ok(),
    ensures
        s.add(p, size, g, lower).totals_ok(),
{
    let l = level_of(p, size);
    lemma_sum_inserted(s.levels, l, |l: LevelView| l.size);
    lemma_sum_inserted(s.levels, l, |l: LevelView| l.value);
}

/// Setting a level keeps the buckets equal to what the levels hold.
pub proof fn lemma_add_keeps_sync(s: SideView, p: real, size: real, g: real, lower: bool)
    requires
        s.ordered(),
        s.in_sync(g, lower),
    ensures
        s.add(p, size, g, lower).in_sync(g, lower),
{
    let t = s.add(p, size, g, lower);
    let b = group_spec(p, g, lower);
    let l = level_of(p, size);
    let e = level_of(b, size_at(s.grouped, b) - size_at(s.levels, p) + size);
    lemma_inserted(s.grouped, e);
    assert forall|c: real| #[trigger] size_at(t.grouped, c) == bucket_size(t.levels, c, g, lower) by {
        lemma_sum_inserted(s.levels, l, in_bucket(c, g, lower));
        lemma_rank_bounds(s.levels, p);
        assert(size_at(s.grouped, c) == bucket_size(s.levels, c, g, lower));
        if c != b {
            lemma_inserted_elsewhere(s.grouped, e, c);
        }
    }
}

} // verus!
