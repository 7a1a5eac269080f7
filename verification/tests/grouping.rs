use bigdecimal::num_bigint::BigInt;
use bigdecimal::{BigDecimal, FromPrimitive, RoundingMode, ToPrimitive, Zero};
use orderbook::book_utils::{group, value_to_scale};
use orderbook::decimal::{Decimal, Rounding};
use std::str::FromStr;

fn lift(value: BigDecimal) -> Decimal {
    let (digits, scale) = value.into_bigint_and_exponent();
    Decimal::new(digits.to_signed_bytes_be(), scale)
}

fn lower(value: &Decimal) -> BigDecimal {
    BigDecimal::new(BigInt::from_signed_bytes_be(&value.digits), value.scale)
}

fn text(s: &str) -> Decimal {
    lift(BigDecimal::from_str(s).unwrap())
}

fn float(x: f64) -> Decimal {
    lift(BigDecimal::from_f64(x).unwrap_or_default())
}

fn number(value: &Decimal) -> f64 {
    lower(value).to_f64().unwrap()
}

fn grouping_cases() -> Vec<(f64, f64, f64, bool)> {
    vec![
        (4.324210, 0.5, 4.00, true),
        (4.324210, 0.05, 4.3, true),
        (4.324210, 0.005, 4.32, true),
        (4.624210, 0.5, 4.5, true),
        (4.624210, 5.0, 0.0, true),
        (4.324210, 0.5, 4.50, false),
        (4.324210, 0.05, 4.35, false),
        (4.324210, 0.005, 4.325, false),
        (4.624210, 0.5, 5.0, false),
        (4.624210, 5.0, 5.0, false),
    ]
}

#[test]
fn test_half_precision_above() {
    let group_size = float(0.1);
    let value = text("100.300000852854");
    let grouped_decimal_bid = group(&value, &group_size, true);
    let grouped_decimal_ask = group(&value, &group_size, false);
    assert!(grouped_decimal_bid.same(&text("100.3")), "Bid did not round down");
    assert!(grouped_decimal_ask.same(&text("100.3")), "Ask did not round up");
}

#[test]
fn test_half_above() {
    let group_size = float(0.1);
    let value = text("100.3599999999999994315658113919198513031005859375");
    let grouped_decimal_bid = group(&value, &group_size, true);
    let grouped_decimal_ask = group(&value, &group_size, false);
    assert!(grouped_decimal_bid.same(&text("100.3")), "Bid did not round down");
    assert!(grouped_decimal_ask.same(&text("100.4")), "Ask did not round up");
}

#[test]
fn test_half_below_with_division() {
    let group_size = float(0.05);
    let value = text("100.3599999999999994315658113919198513031005859375");
    let grouped_decimal_bid = group(&value, &group_size, true);
    let grouped_decimal_ask = group(&value, &group_size, false);
    assert!(grouped_decimal_bid.same(&text("100.35")), "Bid did not round down");
    assert!(grouped_decimal_ask.same(&text("100.4")), "Ask did not round up");
}

#[test]
fn test_decimal_precision_lower() {
    let group_size = float(0.1);
    let value = text("100.29999990005678");
    let grouped_decimal_bid = group(&value, &group_size, true);
    let grouped_decimal_ask = group(&value, &group_size, false);
    assert!(grouped_decimal_bid.same(&text("100.3")), "Bid remain the same");
    assert!(grouped_decimal_ask.same(&text("100.3")), "Ask remain the same");
}

#[test]
fn test_half_below() {
    let group_size = float(0.1);
    let value = text("100.3100058");
    let grouped_decimal_bid = group(&value, &group_size, true);
    let grouped_decimal_ask = group(&value, &group_size, false);
    assert!(grouped_decimal_bid.same(&text("100.3")), "Bid did not round down");
    assert!(grouped_decimal_ask.same(&text("100.4")), "Ask did not round up");
}

#[test]
fn test_half_precision_below() {
    let group_size = float(0.1);
    let value = text("100.2999999852854");
    let grouped_decimal_bid = group(&value, &group_size, true);
    let grouped_decimal_ask = group(&value, &group_size, false);
    assert!(grouped_decimal_bid.same(&text("100.3")), "Bid did not round down");
    assert!(grouped_decimal_ask.same(&text("100.3")), "Ask did not round up");
}

#[test]
fn test_grouping() {
    for case in &grouping_cases() {
        let q = group(&text(&case.0.to_string()), &float(case.1), case.3);
        assert!(q.same(&text(&case.2.to_string())), "{:?}", case);
    }
}

#[test]
fn test_group_decimal_1() {
    for case in &grouping_cases() {
        let a = float(case.0);
        let q = group(&a, &float(case.1), case.3);
        assert_eq!(number(&q), case.2, "{:?}", case);
        assert!(q.same(&text(&case.2.to_string())), "{:?}", case);
    }
}

#[test]
fn value_to_scale_of_common_widths() {
    assert_eq!(value_to_scale(&float(0.1)), 1);
    assert_eq!(value_to_scale(&float(0.05)), 2);
    assert_eq!(value_to_scale(&float(0.005)), 3);
    assert_eq!(value_to_scale(&float(1.0)), 0);
    assert_eq!(value_to_scale(&float(5.0)), 0);
    assert_eq!(value_to_scale(&text("0.1")), 1);
    assert_eq!(value_to_scale(&text("0.01")), 2);
    assert_eq!(value_to_scale(&text("0.0999")), 2);
    assert_eq!(value_to_scale(&text("250")), 0);
}

#[test]
fn group_absorbs_float_noise() {
    let g = float(0.1);
    let x = text("100.300000852854");
    assert_eq!(number(&group(&x, &g, true)), 100.3);
    assert_eq!(number(&group(&x, &g, false)), 100.3);
    assert_eq!(number(&group(&float(6702.01), &float(1.0), false)), 6703.0);
    assert_eq!(number(&group(&float(4.62421), &float(5.0), true)), 0.0);
}

#[test]
fn group_is_idempotent_on_aligned_grids() {
    for width in ["0.5", "0.05", "1", "25", "0.0001"] {
        for price in ["4.32421", "100.31", "0", "-3.7", "99.99995"] {
            for side in [true, false] {
                let g = text(width);
                let once = group(&text(price), &g, side);
                let twice = group(&once, &g, side);
                assert!(twice.same(&once), "{} {} {}", width, price, side);
            }
        }
    }
}

#[test]
fn group_is_not_idempotent_for_a_width_off_its_scale() {
    let g = text("2.5");
    let once = group(&text("3"), &g, true);
    let twice = group(&once, &g, true);
    assert!(once.same(&text("2")));
    assert!(twice.same(&text("0")));
}

#[test]
fn group_straddles_a_price_off_the_grid() {
    let g = text("0.5");
    let x = text("4.32421");
    let below = group(&x, &g, true);
    let above = group(&x, &g, false);
    assert!(below.lt(&x) && x.lt(&above));
    assert!(above.minus(&below).same(&g));
}

#[test]
fn arithmetic_is_exact() {
    let a = text("0.1");
    let b = text("0.2");
    assert!(a.plus(&b).same(&text("0.3")));
    assert!(a.minus(&b).same(&text("-0.1")));
    assert!(a.times(&b).same(&text("0.02")));
    assert!(text("1.0").same(&text("1.00")));
    assert!(!text("1.0").same(&text("1.01")));
    assert_eq!(text("-2").compare(&text("1.5")), -1);
    assert_eq!(text("2").compare(&text("1.5")), 1);
    assert_eq!(text("1.50").compare(&text("1.5")), 0);
    assert!(text("1.5").le(&text("1.5")) && !text("1.6").le(&text("1.5")));
    assert!(Decimal::zero().same(&text("0.000")));
    assert!(Decimal::small(7).same(&text("7")));
    assert!(Decimal::half().same(&text("0.5")));
    assert!(Decimal::hundredth().same(&text("0.01")));
    assert!(Decimal::small_scaled(3, -2).same(&text("300")));
}

#[test]
fn rounding_follows_the_mode() {
    let cases = [
        ("5.5", 5, 6, 6),
        ("2.5", 2, 3, 3),
        ("1.6", 1, 2, 2),
        ("1.1", 1, 2, 1),
        ("-1.1", -2, -1, -1),
        ("-1.6", -2, -1, -2),
        ("-2.5", -3, -2, -3),
        ("-5.5", -6, -5, -6),
        ("3", 3, 3, 3),
        ("-0.04", -1, 0, 0),
        ("0.004", 0, 1, 0),
    ];
    for (x, floor, ceiling, half_up) in cases {
        let d = text(x);
        assert!(d.round(0, Rounding::Floor).same(&text(&floor.to_string())), "floor {}", x);
        assert!(d.round(0, Rounding::Ceiling).same(&text(&ceiling.to_string())), "ceiling {}", x);
        assert!(d.round(0, Rounding::HalfUp).same(&text(&half_up.to_string())), "half up {}", x);
        assert_eq!(d.round(0, Rounding::Floor).scale, 0);
    }
    let d = text("129.41675");
    assert!(d.round(2, Rounding::Floor).same(&text("129.41")));
    assert!(d.round(2, Rounding::Ceiling).same(&text("129.42")));
    assert!(d.round(4, Rounding::HalfUp).same(&text("129.4168")));
    assert!(d.round(-1, Rounding::Floor).same(&text("120")));
    assert!(d.round(8, Rounding::HalfUp).same(&d));
    assert_eq!(d.round(8, Rounding::HalfUp).scale, 8);
}

#[test]
fn quotient_floor_is_the_floor() {
    assert!(text("7").quotient_floor(&text("2")).same(&text("3")));
    assert!(text("-7").quotient_floor(&text("2")).same(&text("-4")));
    assert!(text("4.3242").quotient_floor(&text("0.05")).same(&text("86")));
    assert!(text("1").quotient_floor(&text("0.3")).same(&text("3")));
    assert!(text("-0.1").quotient_floor(&text("25")).same(&text("-1")));
    assert!(text("6").quotient_floor(&text("3.0")).same(&text("2")));
    assert_eq!(text("6").quotient_floor(&text("4")).to_index(), Some(1));
    assert_eq!(text("-6").quotient_floor(&text("4")).to_index(), None);
    assert_eq!(text("1e30").round(0, Rounding::Floor).to_index(), None);
}

#[test]
fn group_keeps_the_order_of_prices() {
    let g = text("0.05");
    let prices = ["-1.234", "0", "4.3", "4.32421", "4.35", "4.3500001", "100.31"];
    for side in [true, false] {
        for pair in prices.windows(2) {
            let low = group(&text(pair[0]), &g, side);
            let high = group(&text(pair[1]), &g, side);
            assert!(low.le(&high), "{:?} {}", pair, side);
        }
    }
}

#[test]
fn group_gives_the_scale_of_the_width() {
    assert_eq!(group(&text("4.32421"), &text("0.005"), true).scale, 3);
    assert_eq!(group(&text("4.32421"), &text("5"), false).scale, 0);
    assert!(group(&text("4.32421"), &text("0.005"), false).is_wf());
}

fn direct(decimal: BigDecimal, group_size: f64, group_lower: bool) -> BigDecimal {
    let scale = std::cmp::max(0, (-group_size.log10()).ceil() as i64);
    let step = BigDecimal::from_f64(group_size).unwrap().with_scale_round(4, RoundingMode::HalfUp);
    let decimal = decimal.with_scale_round(4, RoundingMode::HalfUp);
    let mode = if group_lower { RoundingMode::Floor } else { RoundingMode::Ceiling };
    let div = (decimal.clone() / step.clone()).with_scale_round(0, RoundingMode::Floor);
    let calculated = (div * step.clone()).with_scale_round(scale, RoundingMode::Floor);
    if calculated == decimal {
        return calculated;
    }
    (calculated + if group_lower { BigDecimal::zero() } else { step }).with_scale_round(scale, mode)
}

#[test]
fn group_matches_direct_bigdecimal_arithmetic() {
    let widths = [0.0001, 0.005, 0.01, 0.05, 0.1, 0.25, 0.3, 0.5, 1.0, 2.5, 5.0, 10.0, 100.0, 0.00005];
    let prices = [
        0.0, 0.00004, 0.00005, 0.1, 0.3, 1.0, 4.32421, 4.62421, 99.1, 99.9, 100.2999999999,
        100.30000008, 6702.01, 9015.85, 9017.78, 123456789.123456, -0.1, -4.32421, -100.3, 1e15,
    ];
    for width in widths {
        for price in prices {
            for side in [true, false] {
                let expected = direct(BigDecimal::from_f64(price).unwrap(), width, side);
                let got = group(&float(price), &float(width), side);
                assert!(got.same(&lift(expected.clone())), "{} {} {}", price, width, side);
                assert_eq!(got.scale, expected.into_bigint_and_exponent().1);
            }
        }
    }
}

#[test]
fn or_zero_falls_back_to_zero() {
    assert!(Decimal::or_zero(None).same(&Decimal::zero()));
    assert!(Decimal::or_zero(Some(text("1.5"))).same(&text("1.5")));
    assert!(Decimal::or_zero(Some(Decimal::new(vec![1], 1 << 40))).same(&Decimal::zero()));
    assert!(Decimal::or_zero(BigDecimal::from_f64(f64::NAN).map(lift)).same(&Decimal::zero()));
    assert!(Decimal::or_zero(BigDecimal::from_f64(f64::INFINITY).map(lift)).same(&Decimal::zero()));
}

#[test]
fn compare_orders_by_value_across_scales() {
    assert_eq!(text("-0.10").compare(&text("-0.1")), 0);
    assert_eq!(text("1e3").compare(&text("999.9")), 1);
    assert_eq!(text("-1e3").compare(&text("-999.9")), -1);
    assert_eq!(text("0.00").compare(&text("0")), 0);
    assert_eq!(text("0").compare(&text("-0.0000001")), 1);
    assert_eq!(text("123456789012345678901234567890.1").compare(&text("123456789012345678901234567890.10")), 0);
    assert_eq!(text("123456789012345678901234567890.1").compare(&text("123456789012345678901234567890.2")), -1);
    assert!(text("2e-3").lt(&text("0.0021")));
}

#[test]
fn rounding_to_a_negative_scale() {
    let d = text("-125");
    assert!(d.round(-1, Rounding::HalfUp).same(&text("-130")));
    assert!(d.round(-1, Rounding::Floor).same(&text("-130")));
    assert!(d.round(-1, Rounding::Ceiling).same(&text("-120")));
    assert!(text("0.5").round(0, Rounding::HalfUp).same(&text("1")));
    assert!(text("-0.5").round(0, Rounding::HalfUp).same(&text("-1")));
    assert!(text("0.49999").round(0, Rounding::HalfUp).same(&text("0")));
    assert!(text("0").round(3, Rounding::Ceiling).same(&text("0")));
    assert_eq!(text("0").round(3, Rounding::Ceiling).scale, 3);
    assert!(text("100.2999999999").round(4, Rounding::HalfUp).same(&text("100.3")));
    assert!(text("100.30000008").round(4, Rounding::HalfUp).same(&text("100.3")));
}

#[test]
fn products_and_sums_of_long_decimals_are_exact() {
    let a = float(99.1);
    let b = float(0.027722000000000004);
    let product = a.times(&b);
    let expected = lower(&a) * lower(&b);
    assert!(product.same(&lift(expected)));
    assert!(product.minus(&a.times(&b)).same(&Decimal::zero()));
    let sum = a.plus(&b).plus(&a);
    assert!(sum.minus(&a).minus(&a).same(&b));
    assert_eq!(a.plus(&text("1")).scale, a.scale);
}
