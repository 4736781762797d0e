//! Fixed-point quantities: arithmetic, text round trips, and parse errors.

use factory_planner::qty::{Joules, Number, One, Seconds, Watts, SCALE};
use factory_planner::text::{parse, render, ParseError};

fn n(units: u64) -> Number<One> {
    Number::from_whole(units)
}

fn micro(m: u64) -> Number<One> {
    Number::from_micro(m)
}

#[test]
fn arithmetic_exact_values() {
    assert_eq!(n(2).add(n(3)), n(5));
    assert_eq!(n(5).sub(n(2)), n(3));
    assert_eq!(n(2).sub(n(5)), n(0));
    assert_eq!(n(6).mul(n(7)), n(42));
    assert_eq!(n(7).div(n(2)), micro(3_500_000));
    assert_eq!(n(1).div(n(3)), micro(333_333));
    assert_eq!(n(1).div_ceil(n(3)), micro(333_334));
    assert_eq!(micro(1).ceil(), n(1));
    assert_eq!(n(2).ceil(), n(2));
    assert_eq!(n(0).ceil(), n(0));
    assert_eq!(n(3).max(n(8)), n(8));
    assert!(n(0).is_zero());
    assert!(!micro(1).is_zero());
}

#[test]
fn arithmetic_saturates() {
    let top: Number<One> = Number::from_micro(u64::MAX);
    assert_eq!(top.add(n(1)), top);
    assert_eq!(top.mul(n(2)), top);
    // Division by zero saturates, standing in for infinity.
    assert_eq!(n(1).div(n(0)), top);
    assert_eq!(n(1).div_ceil(n(0)), top);
    assert_eq!(top.ceil(), top);
}

#[test]
fn arithmetic_mixed_units_via_convert() {
    let t: Number<Seconds> = Number::from_whole(90);
    let u: Number<One> = t.convert();
    assert_eq!(u, n(90));
    let w: Number<Watts> = u.convert();
    assert_eq!(w.micro(), 90 * SCALE);
}

#[test]
fn parse_plain_numbers() {
    assert_eq!(parse::<One>("42").unwrap(), n(42));
    assert_eq!(parse::<One>("1.5").unwrap(), micro(1_500_000));
    assert_eq!(parse::<One>("0.25").unwrap(), micro(250_000));
    assert_eq!(parse::<One>(".5").unwrap(), micro(500_000));
    assert_eq!(parse::<One>("5.").unwrap(), n(5));
    assert_eq!(parse::<One>("0.000001").unwrap(), micro(1));
}

#[test]
fn parse_si_multipliers() {
    assert_eq!(parse::<One>("1.5K").unwrap(), n(1_500));
    assert_eq!(parse::<One>("1.5k").unwrap(), n(1_500));
    assert_eq!(parse::<One>("2M").unwrap(), n(2_000_000));
    assert_eq!(parse::<One>("3g").unwrap(), n(3_000_000_000));
}

#[test]
fn parse_unit_suffixes() {
    assert_eq!(parse::<Joules>("8MJ").unwrap(), Number::from_whole(8_000_000));
    assert_eq!(parse::<Watts>("150W").unwrap(), Number::from_whole(150));
    assert_eq!(parse::<Seconds>("0.5s").unwrap(), Number::from_micro(500_000));
    // The unit suffix is optional when reading.
    assert_eq!(parse::<Seconds>("12").unwrap(), Number::from_whole(12));
    assert_eq!(
        parse::<factory_planner::qty::Celsius>("15°").unwrap(),
        Number::from_whole(15)
    );
}

#[test]
fn parse_rejects_malformed_text() {
    assert_eq!(parse::<One>(""), Err(ParseError::Malformed));
    assert_eq!(parse::<One>("."), Err(ParseError::Malformed));
    assert_eq!(parse::<One>("abc"), Err(ParseError::Malformed));
    assert_eq!(parse::<One>("1.2.3"), Err(ParseError::Malformed));
    assert_eq!(parse::<One>("-5"), Err(ParseError::Malformed));
    // More than six fractional digits cannot be carried.
    assert_eq!(parse::<One>("0.0000001"), Err(ParseError::Malformed));
    assert_eq!(parse::<One>("K"), Err(ParseError::Malformed));
    assert_eq!(parse::<Joules>("J"), Err(ParseError::Malformed));
}

#[test]
fn format_exact_strings() {
    assert_eq!(render(&n(0)), "0.0");
    assert_eq!(render(&micro(1_500_000)), "1.5");
    assert_eq!(render(&n(42)), "42.0");
    assert_eq!(render(&n(1_500)), "1.5K");
    assert_eq!(render(&n(2_000_000)), "2.0M");
    assert_eq!(render(&n(3_000_000_000)), "3.0G");
    // Just above half a multiplier switches to it.
    assert_eq!(render(&micro(500_000_001)), "0.5K");
    assert_eq!(render(&n(500)), "500.0");
    let t: Number<Seconds> = Number::from_whole(90);
    assert_eq!(render(&t), "90.0s");
    let j: Number<Joules> = Number::from_whole(8_000_000);
    assert_eq!(render(&j), "8.0MJ");
}

#[test]
fn format_parse_round_trip_within_precision() {
    // parse(format(x)) recovers x up to half of the last printed digit.
    for &m in &[
        0u64,
        1,
        999_999,
        1_000_000,
        1_234_567,
        499_999_999,
        500_000_001,
        777_777_777_777,
        123_456_789_012_345,
        u64::MAX,
    ] {
        let q: Number<Seconds> = Number::from_micro(m);
        let text = render(&q);
        let back: Number<Seconds> = parse(&text).unwrap();
        // The printed multiplier in micro-units.
        let mult: u128 = if m > 500_000_000_000_000 {
            1_000_000_000_000_000
        } else if m > 500_000_000_000 {
            1_000_000_000_000
        } else if m > 500_000_000 {
            1_000_000_000
        } else {
            1_000_000
        };
        let tolerance = (mult / 20) as u64;
        let lo = m.saturating_sub(tolerance);
        let hi = m.saturating_add(tolerance);
        assert!(
            lo <= back.micro() && back.micro() <= hi,
            "{} -> {} -> {} (tolerance {})",
            m,
            text,
            back.micro(),
            tolerance
        );
    }
}

#[test]
fn quantity_ordering() {
    assert!(n(1) < n(2));
    assert!(n(2) <= n(2));
    assert!(n(3) > micro(2_999_999));
    assert_eq!(n(4), micro(4_000_000));
}
