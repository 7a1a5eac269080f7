//! Exact decimal numbers.
//!
//! A [`Decimal`] holds an integer of any size, as big-endian two's-complement
//! bytes, together with a scale: the value is the integer times ten to the
//! power minus the scale.  Two decimals are the same number when their values
//! are equal, whatever their scales: `1.0` is `1.00`.
//!
//! Arithmetic is carried out by `bigdecimal`.  The functions at the end of this
//! module hand the bytes and the scale to it (`BigInt::from_signed_bytes_be`,
//! `BigDecimal::new`), make one call, and take bytes and scale back
//! (`BigDecimal::into_bigint_and_exponent`, `BigInt::to_signed_bytes_be`).  What
//! each call returns is stated as an equation over real numbers and believed,
//! not proved.  They ask for scales within eight times [`MAX_SCALE`]: that keeps
//! the sums and differences of scales that `bigdecimal` forms far inside `i64`.

use bigdecimal::num_bigint::BigInt;
use bigdecimal::num_traits::{Euclid, ToPrimitive};
use bigdecimal::BigDecimal;
use bigdecimal::RoundingMode;
use std::cmp::Ordering;
use vstd::prelude::*;

verus! {

/// The largest scale, in absolute value, of a decimal handed to this library.
/// It leaves room for every binary float: none has more than 1074 digits after
/// the decimal point.
pub const MAX_SCALE: i64 = 0x7fff;

/// Ten to the power `n`.
pub open spec fn pow10(n: nat) -> int
    decreases n,
{
    if n == 0 {
        1
    } else {
        10 * pow10((n - 1) as nat)
    }
}

/// Ten to the power `e`, for any integer `e`.
pub open spec fn exp10(e: int) -> real {
    if e >= 0 {
        pow10(e as nat) as real
    } else {
        1real / (pow10((-e) as nat) as real)
    }
}

/// The integer that big-endian two's-complement bytes denote; no bytes denote zero.
pub open spec fn signed_be(bytes: Seq<u8>) -> int
    decreases bytes.len(),
{
    if bytes.len() == 0 {
        0
    } else if bytes.len() == 1 {
        if bytes[0] < 128 {
            bytes[0] as int
        } else {
            bytes[0] as int - 256
        }
    } else {
        256 * signed_be(bytes.drop_last()) + bytes.last() as int
    }
}

/// How a value that lies between two multiples of a unit is moved onto one of them.
#[derive(Clone, Copy, Debug, PartialEq, Eq, Structural)]
pub enum Rounding {
    /// Towards minus infinity.
    Floor,
    /// Towards plus infinity.
    Ceiling,
    /// To the nearest multiple; a tie moves away from zero.
    HalfUp,
}

/// The whole number that `m` is rounded to.
pub open spec fn round_units(m: real, mode: Rounding) -> int {
    match mode {
        Rounding::Floor => m.floor(),
        Rounding::Ceiling => -((-m).floor()),
        Rounding::HalfUp => if m >= 0real {
            (m + 1real / 2real).floor()
        } else {
            -((-m + 1real / 2real).floor())
        },
    }
}

/// `x` rounded to `scale` digits after the decimal point.
pub open spec fn round_at(x: real, scale: int, mode: Rounding) -> real {
    round_units(x * exp10(scale), mode) as real * exp10(-scale)
}

/// An exact decimal number of any size.
#[derive(Debug)]
pub struct Decimal {
    /// The unscaled integer, as big-endian two's-complement bytes.
    pub digits: Vec<u8>,
    /// The number of digits after the decimal point; may be negative.
    pub scale: i64,
}

impl View for Decimal {
    type V = real;

    open spec fn view(&self) -> real {
        self.unscaled() as real * exp10(-self.scale)
    }
}

/// What a sequence of decimals stands for.
pub open spec fn decimals_view(v: Seq<Decimal>) -> Seq<real> {
    v.map_values(|d: Decimal| d@)
}

impl Clone for Decimal {
    /// A copy with the same bytes and the same scale.
    fn clone(&self) -> (r: Self)
        ensures
            r.digits@ == self.digits@,
            r.scale == self.scale,
            r@ == self@,
    {
        Decimal { digits: self.digits.clone(), scale: self.scale }
    }
}

impl Decimal {
    /// The integer that the digits denote.
    pub open spec fn unscaled(&self) -> int {
        signed_be(self.digits@)
    }

    /// The scale lies within `k` times [`MAX_SCALE`] of zero.
    pub open spec fn within(&self, k: int) -> bool {
        -k * MAX_SCALE <= self.scale <= k * MAX_SCALE
    }

    /// The scale is one that callers may hand over.
    pub open spec fn wf(&self) -> bool {
        self.within(1)
    }

    /// The decimal of the given bytes and scale.
    pub fn new(digits: Vec<u8>, scale: i64) -> (r: Decimal)
        ensures
            r.digits@ == digits@,
            r.scale == scale,
    {
        Decimal { digits, scale }
    }

    /// Whether the scale is one that callers may hand over.
    pub fn is_wf(&self) -> (r: bool)
        ensures
            r == self.wf(),
    {
        -MAX_SCALE <= self.scale && self.scale <= MAX_SCALE
    }

    /// The decimal that a conversion gave, or zero where the conversion gave
    /// none, or one whose scale is out of range.
    pub fn or_zero(converted: Option<Decimal>) -> (r: Decimal)
        ensures
            r.wf(),
            match converted {
                Some(d) => if d.wf() {
                    r == d
                } else {
                    r@ == 0real
                },
                None => r@ == 0real,
            },
    {
        match converted {
            Some(d) => if d.is_wf() {
                d
            } else {
                Decimal::zero()
            },
            None => Decimal::zero(),
        }
    }

    /// Zero.
    pub fn zero() -> (r: Decimal)
        ensures
            r@ == 0real,
            r.scale == 0,
            r.unscaled() == 0,
    {
        let r = Decimal { digits: Vec::new(), scale: 0 };
        proof {
            lemma_view_of_integer(r);
        }
        r
    }

    /// The whole number `n`, for `0 <= n < 128`.
    pub fn small(n: u8) -> (r: Decimal)
        requires
            n < 128,
        ensures
            r@ == n as real,
            r.scale == 0,
            r.unscaled() == n,
    {
        let mut digits: Vec<u8> = Vec::new();
        digits.push(n);
        let r = Decimal { digits, scale: 0 };
        proof {
            lemma_view_of_integer(r);
        }
        r
    }

    /// `n` divided by ten to the power `scale`, for `0 <= n < 128`.
    pub fn small_scaled(n: u8, scale: i64) -> (r: Decimal)
        requires
            n < 128,
        ensures
            r@ == n as real * exp10(-scale),
            r.scale == scale,
            r.unscaled() == n,
    {
        let mut digits: Vec<u8> = Vec::new();
        digits.push(n);
        Decimal { digits, scale }
    }

    /// `self + other`, exactly.
    pub fn plus(&self, other: &Decimal) -> (r: Decimal)
        requires
            self.within(8),
            other.within(8),
        ensures
            r@ == self@ + other@,
            r.scale == if self.scale >= other.scale { self.scale } else { other.scale },
    {
        sum(self, other)
    }

    /// `self - other`, exactly.
    pub fn minus(&self, other: &Decimal) -> (r: Decimal)
        requires
            self.within(8),
            other.within(8),
        ensures
            r@ == self@ - other@,
            r.scale == self.scale || r.scale == other.scale,
    {
        difference(self, other)
    }

    /// `self * other`, exactly.
    pub fn times(&self, other: &Decimal) -> (r: Decimal)
        requires
            self.within(8),
            other.within(8),
        ensures
            r@ == self@ * other@,
            r.scale == self.scale + other.scale || r.scale == self.scale || r.scale
                == other.scale,
    {
        product(self, other)
    }

    /// `self` rounded to `scale` digits after the decimal point.
    pub fn round(&self, scale: i64, mode: Rounding) -> (r: Decimal)
        requires
            self.within(8),
            -8 * MAX_SCALE <= scale <= 8 * MAX_SCALE,
        ensures
            r.scale == scale,
            r.unscaled() == round_units(self@ * exp10(scale as int), mode),
            r@ == round_at(self@, scale as int, mode),
    {
        rounded(self, scale, mode)
    }

    /// Whether `self` is below, equal to or above `other`: -1, 0 or 1.
    pub fn compare(&self, other: &Decimal) -> (r: i8)
        requires
            self.within(8),
            other.within(8),
        ensures
            r == -1 <==> self@ < other@,
            r == 0 <==> self@ == other@,
            r == 1 <==> self@ > other@,
    {
        order(self, other)
    }

    /// Whether `self` is below `other`.
    pub fn lt(&self, other: &Decimal) -> (r: bool)
        requires
            self.within(8),
            other.within(8),
        ensures
            r == (self@ < other@),
    {
        order(self, other) == -1
    }

    /// Whether `self` is not above `other`.
    pub fn le(&self, other: &Decimal) -> (r: bool)
        requires
            self.within(8),
            other.within(8),
        ensures
            r == (self@ <= other@),
    {
        order(self, other) != 1
    }

    /// Whether `self` and `other` are the same number, whatever their scales.
    pub fn same(&self, other: &Decimal) -> (r: bool)
        requires
            self.within(8),
            other.within(8),
        ensures
            r == (self@ == other@),
    {
        order(self, other) == 0
    }

    /// One half.
    pub fn half() -> (r: Decimal)
        ensures
            r@ == 1real / 2real,
            r.scale == 1,
    {
        let r = Decimal::small_scaled(5, 1);
        proof {
            reveal_with_fuel(pow10, 2);
            assert(exp10(-1) == 1real / 10real);
        }
        r
    }

    /// One hundredth.
    pub fn hundredth() -> (r: Decimal)
        ensures
            r@ == 1real / 100real,
            r.scale == 2,
    {
        let r = Decimal::small_scaled(1, 2);
        proof {
            reveal_with_fuel(pow10, 3);
            assert(exp10(-2) == 1real / 100real);
        }
        r
    }

    /// The whole number that a decimal of scale zero holds, where it is one that
    /// can index a vector.
    pub fn to_index(&self) -> (r: Option<usize>)
        requires
            self.scale == 0,
        ensures
            match r {
                Some(u) => u == self.unscaled(),
                None => self.unscaled() < 0 || self.unscaled() > usize::MAX,
            },
    {
        whole(self)
    }

    /// The largest whole number that is not above `self / other`.
    pub fn quotient_floor(&self, other: &Decimal) -> (r: Decimal)
        requires
            self.within(4),
            other.within(4),
            other@ > 0real,
        ensures
            r.scale == 0,
            r.unscaled() == (self@ / other@).floor(),
            r@ == (self@ / other@).floor() as real,
    {
        let scale = if self.scale >= other.scale {
            self.scale
        } else {
            other.scale
        };
        let a = self.round(scale, Rounding::Floor);
        let b = other.round(scale, Rounding::Floor);
        proof {
            lemma_extend_exact(*self, scale as int);
            lemma_extend_exact(*other, scale as int);
            lemma_exp10_positive(-scale);
            let e = exp10(-scale);
            let au = a.unscaled();
            let bu = b.unscaled();
            assert(bu > 0) by (nonlinear_arith)
                requires
                    bu as real * e > 0real,
                    e > 0real,
            ;
            assert((au as real * e) / (bu as real * e) == au as real / (bu as real))
                by (nonlinear_arith)
                requires
                    e > 0real,
                    bu > 0,
            ;
            lemma_floor_of_ratio(au, bu);
        }
        let r = unscaled_quotient(&a, &b);
        proof {
            lemma_view_of_integer(r);
        }
        r
    }
}

/// `+` of `bigdecimal`, on two `BigDecimal`s by value (`Add::add`).  The sum
/// is exact, and its scale is the larger of the two scales.
#[verifier::external_body]
fn sum(a: &Decimal, b: &Decimal) -> (r: Decimal)
    requires
        a.within(8),
        b.within(8),
    ensures
        r@ == a@ + b@,
        r.scale == if a.scale >= b.scale { a.scale } else { b.scale },
{
    let x = BigDecimal::new(BigInt::from_signed_bytes_be(&a.digits), a.scale);
    let y = BigDecimal::new(BigInt::from_signed_bytes_be(&b.digits), b.scale);
    let (n, scale) = (x + y).into_bigint_and_exponent();
    Decimal { digits: n.to_signed_bytes_be(), scale }
}

/// `-` of `bigdecimal`, on two `BigDecimal`s by value (`Sub::sub`).  The
/// difference is exact, and its scale is that of one of the operands.
#[verifier::external_body]
fn difference(a: &Decimal, b: &Decimal) -> (r: Decimal)
    requires
        a.within(8),
        b.within(8),
    ensures
        r@ == a@ - b@,
        r.scale == a.scale || r.scale == b.scale,
{
    let x = BigDecimal::new(BigInt::from_signed_bytes_be(&a.digits), a.scale);
    let y = BigDecimal::new(BigInt::from_signed_bytes_be(&b.digits), b.scale);
    let (n, scale) = (x - y).into_bigint_and_exponent();
    Decimal { digits: n.to_signed_bytes_be(), scale }
}

/// `*` of `bigdecimal`, on two `BigDecimal`s by value (`Mul::mul`).  The
/// product is exact; its scale is the sum of the two scales, or that of one
/// operand where the other is the number one.
#[verifier::external_body]
fn product(a: &Decimal, b: &Decimal) -> (r: Decimal)
    requires
        a.within(8),
        b.within(8),
    ensures
        r@ == a@ * b@,
        r.scale == a.scale + b.scale || r.scale == a.scale || r.scale == b.scale,
{
    let x = BigDecimal::new(BigInt::from_signed_bytes_be(&a.digits), a.scale);
    let y = BigDecimal::new(BigInt::from_signed_bytes_be(&b.digits), b.scale);
    let (n, scale) = (x * y).into_bigint_and_exponent();
    Decimal { digits: n.to_signed_bytes_be(), scale }
}

/// `BigDecimal::with_scale_round`.  The result has the scale asked for, and its
/// unscaled integer is the value, counted in units of that scale, rounded as
/// the mode says.
#[verifier::external_body]
fn rounded(a: &Decimal, scale: i64, mode: Rounding) -> (r: Decimal)
    requires
        a.within(8),
        -8 * MAX_SCALE <= scale <= 8 * MAX_SCALE,
    ensures
        r.scale == scale,
        r.unscaled() == round_units(a@ * exp10(scale as int), mode),
        r@ == round_at(a@, scale as int, mode),
{
    let m = match mode {
        Rounding::Floor => RoundingMode::Floor,
        Rounding::Ceiling => RoundingMode::Ceiling,
        Rounding::HalfUp => RoundingMode::HalfUp,
    };
    let x = BigDecimal::new(BigInt::from_signed_bytes_be(&a.digits), a.scale);
    let (n, s) = x.with_scale_round(scale, m).into_bigint_and_exponent();
    Decimal { digits: n.to_signed_bytes_be(), scale: s }
}

/// `Ord::cmp` of `BigDecimal`, which orders by value whatever the scales.
#[verifier::external_body]
fn order(a: &Decimal, b: &Decimal) -> (r: i8)
    requires
        a.within(8),
        b.within(8),
    ensures
        r == -1 <==> a@ < b@,
        r == 0 <==> a@ == b@,
        r == 1 <==> a@ > b@,
{
    let x = BigDecimal::new(BigInt::from_signed_bytes_be(&a.digits), a.scale);
    let y = BigDecimal::new(BigInt::from_signed_bytes_be(&b.digits), b.scale);
    match x.cmp(&y) {
        Ordering::Less => -1,
        Ordering::Equal => 0,
        Ordering::Greater => 1,
    }
}

/// `ToPrimitive::to_usize` of `BigDecimal`, for a decimal of scale zero: its
/// integer, unless that is negative or too large for a `usize`.
#[verifier::external_body]
fn whole(d: &Decimal) -> (r: Option<usize>)
    requires
        d.scale == 0,
    ensures
        match r {
            Some(u) => u == d.unscaled(),
            None => d.unscaled() < 0 || d.unscaled() > usize::MAX,
        },
{
    BigDecimal::new(BigInt::from_signed_bytes_be(&d.digits), d.scale).to_usize()
}

/// `Euclid::div_euclid` of `BigInt`, on the unscaled integers: the quotient
/// whose remainder is never negative.  The scales play no part.
#[verifier::external_body]
fn unscaled_quotient(a: &Decimal, b: &Decimal) -> (r: Decimal)
    requires
        b.unscaled() != 0,
    ensures
        r.scale == 0,
        r.unscaled() == a.unscaled() / b.unscaled(),
{
    let x = BigInt::from_signed_bytes_be(&a.digits);
    let y = BigInt::from_signed_bytes_be(&b.digits);
    Decimal { digits: x.div_euclid(&y).to_signed_bytes_be(), scale: 0 }
}

/// Ten to any power is at least one for a power that is not negative.
pub proof fn lemma_pow10_positive(n: nat)
    ensures
        pow10(n) >= 1,
    decreases n,
{
    if n > 0 {
        lemma_pow10_positive((n - 1) as nat);
    }
}

/// `pow10` turns sums into products.
pub proof fn lemma_pow10_add(a: nat, b: nat)
    ensures
        pow10(a + b) == pow10(a) * pow10(b),
    decreases a,
{
    if a > 0 {
        lemma_pow10_add((a - 1) as nat, b);
        assert(pow10(a + b) == 10 * pow10((a - 1 + b) as nat));
        assert(10 * (pow10((a - 1) as nat) * pow10(b)) == (10 * pow10((a - 1) as nat)) * pow10(
            b,
        )) by (nonlinear_arith);
    } else {
        assert(pow10(a) == 1);
    }
}

/// `exp10` is positive.
pub proof fn lemma_exp10_positive(e: int)
    ensures
        exp10(e) > 0real,
{
    if e >= 0 {
        lemma_pow10_positive(e as nat);
    } else {
        lemma_pow10_positive((-e) as nat);
        let p = pow10((-e) as nat) as real;
        assert(1real / p > 0real) by (nonlinear_arith)
            requires
                p >= 1real,
        ;
    }
}

/// `exp10` turns sums into products.
pub proof fn lemma_exp10_add(a: int, b: int)
    ensures
        exp10(a + b) == exp10(a) * exp10(b),
{
    lemma_exp10_positive(a);
    lemma_exp10_positive(b);
    lemma_exp10_positive(a + b);
    if a >= 0 && b >= 0 {
        lemma_pow10_add(a as nat, b as nat);
        lemma_int_product(pow10(a as nat), pow10(b as nat));
    } else if a < 0 && b < 0 {
        lemma_pow10_add((-a) as nat, (-b) as nat);
        let p = pow10((-a) as nat);
        let q = pow10((-b) as nat);
        lemma_pow10_positive((-a) as nat);
        lemma_pow10_positive((-b) as nat);
        lemma_int_product(p, q);
        let pr = p as real;
        let qr = q as real;
        assert(1real / (pr * qr) == (1real / pr) * (1real / qr)) by (nonlinear_arith)
            requires
                pr >= 1real,
                qr >= 1real,
        ;
    } else if a >= 0 && b < 0 {
        lemma_exp10_mixed(a, -b);
    } else {
        lemma_exp10_mixed(b, -a);
        assert(exp10(b) * exp10(a) == exp10(a) * exp10(b)) by (nonlinear_arith);
    }
}

/// The product of two integers, taken as reals, is the product taken as a real.
pub proof fn lemma_int_product(p: int, q: int)
    ensures
        (p * q) as real == p as real * (q as real),
{
    assert((p * q) as real == p as real * (q as real)) by (nonlinear_arith);
}

proof fn lemma_exp10_mixed(a: int, b: int)
    requires
        a >= 0,
        b > 0,
    ensures
        exp10(a - b) == exp10(a) * exp10(-b),
{
    let p = pow10(a as nat);
    let q = pow10(b as nat);
    lemma_pow10_positive(a as nat);
    lemma_pow10_positive(b as nat);
    let pr = p as real;
    let qr = q as real;
    if a >= b {
        lemma_pow10_add((a - b) as nat, b as nat);
        let d = pow10((a - b) as nat);
        lemma_int_product(d, q);
        let dr = d as real;
        assert(dr == pr * (1real / qr)) by (nonlinear_arith)
            requires
                pr == dr * qr,
                qr >= 1real,
        ;
    } else {
        lemma_pow10_add((b - a) as nat, a as nat);
        let d = pow10((b - a) as nat);
        lemma_pow10_positive((b - a) as nat);
        lemma_int_product(d, p);
        let dr = d as real;
        assert(1real / dr == pr * (1real / qr)) by (nonlinear_arith)
            requires
                qr == dr * pr,
                pr >= 1real,
                dr >= 1real,
        ;
    }
}

/// Rounding a whole number of units leaves it as it is, whatever the mode.
pub proof fn lemma_round_units_whole(n: int, mode: Rounding)
    ensures
        round_units(n as real, mode) == n,
{
}

/// A value that is a whole number of units of a scale is not moved by rounding
/// to that scale.
pub proof fn lemma_round_at_exact(x: real, scale: int, n: int, mode: Rounding)
    requires
        x * exp10(scale) == n as real,
    ensures
        round_at(x, scale, mode) == x,
        round_units(x * exp10(scale), mode) == n,
{
    lemma_round_units_whole(n, mode);
    lemma_exp10_add(scale, -scale);
    assert(pow10(0) == 1);
    let e = exp10(scale);
    let f = exp10(-scale);
    assert((x * e) * f == x) by (nonlinear_arith)
        requires
            e * f == 1real,
    ;
}

/// Writing a decimal with more digits after the point does not change it: the
/// unscaled integer gains zeros.
pub proof fn lemma_extend_exact(d: Decimal, scale: int)
    requires
        scale >= d.scale,
    ensures
        round_units(d@ * exp10(scale), Rounding::Floor) == d.unscaled() * pow10(
            (scale - d.scale) as nat,
        ),
        round_at(d@, scale, Rounding::Floor) == d@,
{
    let u = d.unscaled();
    let k = (scale - d.scale) as nat;
    lemma_exp10_add(-d.scale, scale);
    lemma_int_product(u, pow10(k));
    let ur = u as real;
    let a = exp10(-d.scale);
    let b = exp10(scale);
    assert((ur * a) * b == ur * (a * b)) by (nonlinear_arith);
    lemma_round_at_exact(d@, scale, u * pow10(k), Rounding::Floor);
}

/// For a positive divisor, the floor of the real quotient of two integers is
/// their integer quotient.
pub proof fn lemma_floor_of_ratio(n: int, d: int)
    requires
        d > 0,
    ensures
        (n as real / (d as real)).floor() == n / d,
{
    let q = n / d;
    let r = n % d;
    assert(n == q * d + r && 0 <= r < d) by (nonlinear_arith)
        requires
            d > 0,
            q == n / d,
            r == n % d,
    ;
    let x = n as real / (d as real);
    assert(q as real <= x < (q + 1) as real) by (nonlinear_arith)
        requires
            d > 0,
            n == q * d + r,
            0 <= r < d,
            x == n as real / (d as real),
    ;
}

/// A decimal of scale zero is its unscaled integer.
pub proof fn lemma_view_of_integer(d: Decimal)
    requires
        d.scale == 0,
    ensures
        d@ == d.unscaled() as real,
{
    assert(pow10(0) == 1);
    let u = d.unscaled() as real;
    assert(u * 1real == u) by (nonlinear_arith);
}

} // verus!
