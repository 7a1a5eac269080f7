//! The bucket grid: which scale a bucket width implies, and onto which grid
//! line a price falls.

use crate::decimal::{
    exp10, lemma_exp10_add, lemma_exp10_positive, lemma_int_product, lemma_pow10_positive,
    lemma_round_at_exact, pow10, round_at,
    round_units, Decimal, Rounding, MAX_SCALE,
};
use vstd::prelude::*;

verus! {

/// `k` is the least number of decimal places, not below zero, at which a value
/// as small as `g` shows a digit: ten to the power `-k` is at most `g`.
pub open spec fn is_scale_of(g: real, k: int) -> bool {
    &&& k >= 0
    &&& g >= exp10(-k)
    &&& k > 0 ==> g < exp10(-(k - 1))
}

/// The scale that a bucket width implies.
pub open spec fn scale_of(g: real) -> int {
    choose|k: int| is_scale_of(g, k)
}

/// The bucket width as the grid uses it: rounded to four places.
pub open spec fn grid_step(g: real) -> real {
    round_at(g, 4, Rounding::HalfUp)
}

/// The grid line that `x` falls on, for buckets of width `g`: the one below for
/// `lower`, the one above otherwise, and `x` itself where it lies on a line.
pub open spec fn group_spec(x: real, g: real, lower: bool) -> real {
    let s = scale_of(g);
    let gd = grid_step(g);
    let xd = round_at(x, 4, Rounding::HalfUp);
    let q = (xd / gd).floor();
    let c = round_at(q as real * gd, s, Rounding::Floor);
    if c == xd {
        c
    } else if lower {
        round_at(c + 0real, s, Rounding::Floor)
    } else {
        round_at(c + gd, s, Rounding::Ceiling)
    }
}

/// The bucket width, in units of its own scale, is a whole number.
pub open spec fn grid_aligned(g: real) -> bool {
    let m = grid_step(g) * exp10(scale_of(g));
    m.floor() as real == m
}

/// `exp10` grows with its argument.
pub proof fn lemma_exp10_monotonic(a: int, b: int)
    requires
        a <= b,
    ensures
        exp10(a) <= exp10(b),
{
    lemma_exp10_add(a, b - a);
    lemma_exp10_positive(a);
    lemma_pow10_positive((b - a) as nat);
    let x = exp10(a);
    let y = exp10(b - a);
    assert(x <= x * y) by (nonlinear_arith)
        requires
            x > 0real,
            y >= 1real,
    ;
}

/// At most one scale fits a bucket width.
pub proof fn lemma_scale_unique(g: real, k: int)
    requires
        is_scale_of(g, k),
    ensures
        scale_of(g) == k,
{
    let j = scale_of(g);
    assert(is_scale_of(g, j));
    if j < k {
        lemma_exp10_monotonic(-(k - 1), -j);
    } else if k < j {
        lemma_exp10_monotonic(-(j - 1), -k);
    }
}

/// Only a positive width has a positive grid step.
pub proof fn lemma_grid_step_sign(g: real)
    requires
        grid_step(g) > 0real,
    ensures
        g > 0real,
{
    lemma_exp10_positive(4);
    lemma_exp10_positive(-4);
    if g <= 0real {
        let e = exp10(4);
        let m = g * e;
        assert(m <= 0real) by (nonlinear_arith)
            requires
                m == g * e,
                g <= 0real,
                e > 0real,
        ;
        let u = round_units(m, Rounding::HalfUp);
        assert(u <= 0);
        let f = exp10(-4);
        assert(u as real * f <= 0real) by (nonlinear_arith)
            requires
                u <= 0,
                f > 0real,
        ;
    }
}

/// A whole multiple of an aligned bucket width is not moved by rounding to four
/// places, nor by rounding to the bucket's scale.
proof fn lemma_multiple_on_grid(g: real, k: int, mode: Rounding)
    requires
        grid_step(g) > 0real,
        grid_aligned(g),
    ensures
        round_at(k as real * grid_step(g), 4, Rounding::HalfUp) == k as real * grid_step(g),
        round_at(k as real * grid_step(g), scale_of(g), mode) == k as real * grid_step(g),
{
    let gd = grid_step(g);
    let s = scale_of(g);
    let kr = k as real;
    // the step in units of four places
    let gu = round_units(g * exp10(4), Rounding::HalfUp);
    lemma_exp10_add(-4, 4);
    assert(pow10(0) == 1);
    let a = exp10(-4);
    let b = exp10(4);
    let gur = gu as real;
    assert((gur * a) * b == gur) by (nonlinear_arith)
        requires
            a * b == 1real,
    ;
    assert((kr * gd) * b == kr * gur) by (nonlinear_arith)
        requires
            gd * b == gur,
    ;
    lemma_int_product(k, gu);
    lemma_round_at_exact(kr * gd, 4, k * gu, Rounding::HalfUp);
    // the step in units of its own scale
    let h = (gd * exp10(s)).floor();
    let hr = h as real;
    let c = exp10(s);
    assert((kr * gd) * c == kr * hr) by (nonlinear_arith)
        requires
            gd * c == hr,
    ;
    lemma_int_product(k, h);
    lemma_round_at_exact(kr * gd, s, k * h, mode);
}

/// On an aligned grid every grouped price is a whole multiple of the grid step.
proof fn lemma_group_is_multiple(x: real, g: real, lower: bool) -> (k: int)
    requires
        grid_step(g) > 0real,
        grid_aligned(g),
    ensures
        group_spec(x, g, lower) == k as real * grid_step(g),
{
    let gd = grid_step(g);
    let xd = round_at(x, 4, Rounding::HalfUp);
    let q = (xd / gd).floor();
    lemma_multiple_on_grid(g, q, Rounding::Floor);
    let c = q as real * gd;
    if c == xd {
        q
    } else if lower {
        assert(c + 0real == c);
        q
    } else {
        let qr = q as real;
        assert(c + gd == (q + 1) as real * gd) by (nonlinear_arith)
            requires
                c == qr * gd,
                qr + 1real == (q + 1) as real,
        ;
        lemma_multiple_on_grid(g, q + 1, Rounding::Ceiling);
        q + 1
    }
}

/// On an aligned grid the two grid lines of a price are the whole multiples of
/// the grid step next to the price as rounded to four places: the one at or
/// below it, and the one at or above it.
pub proof fn lemma_group_shape(x: real, g: real) -> (q: int)
    requires
        grid_step(g) > 0real,
        grid_aligned(g),
    ensures
        q as real * grid_step(g) <= round_at(x, 4, Rounding::HalfUp),
        round_at(x, 4, Rounding::HalfUp) < (q + 1) as real * grid_step(g),
        group_spec(x, g, true) == q as real * grid_step(g),
        group_spec(x, g, false) == if q as real * grid_step(g) == round_at(
            x,
            4,
            Rounding::HalfUp,
        ) {
            q as real * grid_step(g)
        } else {
            (q + 1) as real * grid_step(g)
        },
{
    let gd = grid_step(g);
    let xd = round_at(x, 4, Rounding::HalfUp);
    let q = (xd / gd).floor();
    let qr = q as real;
    let t = xd / gd;
    assert(qr * gd <= xd && xd < (qr + 1real) * gd) by (nonlinear_arith)
        requires
            gd > 0real,
            t == xd / gd,
            qr <= t,
            t < qr + 1real,
    ;
    lemma_multiple_on_grid(g, q, Rounding::Floor);
    lemma_multiple_on_grid(g, q + 1, Rounding::Ceiling);
    let c = qr * gd;
    assert(c + 0real == c);
    assert(c + gd == (q + 1) as real * gd) by (nonlinear_arith)
        requires
            c == qr * gd,
            qr + 1real == (q + 1) as real,
    ;
    q
}

/// On an aligned grid a price that, rounded to four places, lies off the grid
/// lies strictly between its two grid lines, and these are one grid step
/// apart.
pub proof fn lemma_group_straddles(x: real, g: real)
    requires
        grid_step(g) > 0real,
        grid_aligned(g),
        group_spec(x, g, true) != round_at(x, 4, Rounding::HalfUp),
    ensures
        group_spec(x, g, true) < round_at(x, 4, Rounding::HalfUp) < group_spec(x, g, false),
        group_spec(x, g, false) - group_spec(x, g, true) == grid_step(g),
{
    let gd = grid_step(g);
    let q = lemma_group_shape(x, g);
    let qr = q as real;
    assert((q + 1) as real * gd - qr * gd == gd) by (nonlinear_arith)
        requires
            qr + 1real == (q + 1) as real,
    ;
}

/// Rounding to a scale keeps the order of two values.
pub proof fn lemma_round_monotonic(x: real, y: real, scale: int, mode: Rounding)
    requires
        x <= y,
    ensures
        round_at(x, scale, mode) <= round_at(y, scale, mode),
{
    lemma_exp10_positive(scale);
    lemma_exp10_positive(-scale);
    let e = exp10(scale);
    let f = exp10(-scale);
    assert(x * e <= y * e) by (nonlinear_arith)
        requires
            x <= y,
            e > 0real,
    ;
    let a = round_units(x * e, mode);
    let b = round_units(y * e, mode);
    assert(a <= b);
    assert(a as real * f <= b as real * f) by (nonlinear_arith)
        requires
            a <= b,
            f > 0real,
    ;
}

/// On an aligned grid grouping keeps the order of two prices.
pub proof fn lemma_group_monotonic(x: real, y: real, g: real, lower: bool)
    requires
        grid_step(g) > 0real,
        grid_aligned(g),
        x <= y,
    ensures
        group_spec(x, g, lower) <= group_spec(y, g, lower),
{
    let gd = grid_step(g);
    let xd = round_at(x, 4, Rounding::HalfUp);
    let yd = round_at(y, 4, Rounding::HalfUp);
    lemma_round_monotonic(x, y, 4, Rounding::HalfUp);
    let p = lemma_group_shape(x, g);
    let q = lemma_group_shape(y, g);
    let pr = p as real;
    let qr = q as real;
    // the line below x is not above the line below y
    assert(p <= q) by (nonlinear_arith)
        requires
            gd > 0real,
            pr * gd <= xd,
            xd <= yd,
            yd < (q + 1) as real * gd,
            pr == p as real,
    ;
    assert(pr * gd <= qr * gd) by (nonlinear_arith)
        requires
            p <= q,
            gd > 0real,
            pr == p as real,
            qr == q as real,
    ;
    if !lower {
        let pu = (p + 1) as real;
        let qu = (q + 1) as real;
        assert(pu * gd <= qu * gd) by (nonlinear_arith)
            requires
                p <= q,
                gd > 0real,
                pu == (p + 1) as real,
                qu == (q + 1) as real,
        ;
        if pr * gd != xd && qr * gd == yd {
            assert(p + 1 <= q) by (nonlinear_arith)
                requires
                    gd > 0real,
                    pr * gd < xd,
                    xd <= yd,
                    yd == qr * gd,
                    pr == p as real,
                    qr == q as real,
            ;
            assert(pu * gd <= qr * gd) by (nonlinear_arith)
                requires
                    p + 1 <= q,
                    gd > 0real,
                    pu == (p + 1) as real,
                    qr == q as real,
            ;
        }
        if pr * gd == xd && qr * gd != yd {
            assert(pr * gd <= qu * gd) by (nonlinear_arith)
                requires
                    p <= q,
                    gd > 0real,
                    pr == p as real,
                    qu == (q + 1) as real,
            ;
        }
    }
}

/// Grouping is idempotent on an aligned grid: a grouped price groups to itself.
///
/// The grid is aligned where the bucket width, rounded to four places, is a
/// whole number of units of the scale that the width implies (0.5, 0.05, 1, 25;
/// not 2.5 or 0.25, whose scale holds one digit fewer than the width has).  Off
/// an aligned grid a grid line is cut short when it is rounded to the scale,
/// and grouping it again moves it: with width 2.5, the price 3 groups down to
/// 2, and 2 groups down to 0.
pub proof fn lemma_group_idempotent(x: real, g: real, lower: bool)
    requires
        grid_step(g) > 0real,
        grid_aligned(g),
    ensures
        group_spec(group_spec(x, g, lower), g, lower) == group_spec(x, g, lower),
{
    let gd = grid_step(g);
    let k = lemma_group_is_multiple(x, g, lower);
    let kr = k as real;
    lemma_multiple_on_grid(g, k, Rounding::Floor);
    assert((kr * gd) / gd == kr) by (nonlinear_arith)
        requires
            gd > 0real,
    ;
    assert(kr.floor() == k);
}

/// The decimal scale that a bucket width implies: the least `k`, not below
/// zero, with ten to the power `-k` at most `value`.
pub fn value_to_scale(value: &Decimal) -> (r: i64)
    requires
        value.wf(),
        value@ > 0real,
    ensures
        is_scale_of(value@, r as int),
        r == scale_of(value@),
        0 <= r <= MAX_SCALE,
        r <= value.scale || r == 0,
{
    let mut k: i64 = 0;
    let mut unit = Decimal::small_scaled(1, 0);
    proof {
        lemma_positive_unscaled(*value);
    }
    while value.lt(&unit)
        invariant
            value.wf(),
            value@ > 0real,
            value.unscaled() >= 1,
            0 <= k,
            k <= value.scale || k == 0,
            unit@ == exp10(-k),
            unit.scale == k,
            k > 0 ==> value@ < exp10(-(k - 1)),
        decreases value.scale - k,
    {
        proof {
            if k >= value.scale {
                let u = value.unscaled() as real;
                let e = exp10(-value.scale as int);
                lemma_exp10_monotonic(-k, -value.scale as int);
                lemma_exp10_positive(-k);
                assert(u * e >= e) by (nonlinear_arith)
                    requires
                        u >= 1real,
                        e > 0real,
                ;
            }
        }
        k = k + 1;
        unit = Decimal::small_scaled(1, k);
    }
    proof {
        lemma_scale_unique(value@, k as int);
    }
    k
}

/// A positive decimal has a positive unscaled integer.
pub proof fn lemma_positive_unscaled(d: Decimal)
    requires
        d@ > 0real,
    ensures
        d.unscaled() >= 1,
{
    lemma_exp10_positive(-d.scale);
    let u = d.unscaled();
    let e = exp10(-d.scale);
    assert(u > 0) by (nonlinear_arith)
        requires
            u as real * e > 0real,
            e > 0real,
    ;
}

/// Projects `decimal` onto the grid of buckets of width `group_size`.
pub fn group(decimal: &Decimal, group_size: &Decimal, group_lower: bool) -> (r: Decimal)
    requires
        decimal.within(4),
        group_size.wf(),
        grid_step(group_size@) > 0real,
    ensures
        r@ == group_spec(decimal@, group_size@, group_lower),
        r.scale == scale_of(group_size@),
        r.wf(),
{
    proof {
        lemma_grid_step_sign(group_size@);
    }
    let scale = value_to_scale(group_size);
    let step = group_size.round(4, Rounding::HalfUp);
    let price = decimal.round(4, Rounding::HalfUp);
    let count = price.quotient_floor(&step);
    let calculated = count.times(&step).round(scale, Rounding::Floor);
    if calculated.same(&price) {
        return calculated;
    }
    if group_lower {
        calculated.plus(&Decimal::zero()).round(scale, Rounding::Floor)
    } else {
        calculated.plus(&step).round(scale, Rounding::Ceiling)
    }
}

} // verus!
