use forge_e2e::num::ATTO_PER_UNIT;
use forge_e2e::num::NEAR_TOL_ATTO;
use forge_e2e::num::Num;
use forge_e2e::num::STRICT_TOL_ATTO;
use forge_e2e::num::format_usize;
use forge_e2e::num::nearly_close;
use forge_e2e::num::parse_num;
use forge_e2e::num::parse_usize;
use forge_e2e::num::strict_close;

fn chars(s: &str) -> Vec<char> {
    s.chars().collect()
}

#[test]
fn parse_whole_number() {
    assert_eq!(parse_num(&chars("42")), Some(Num::from_int(42)));
    assert_eq!(parse_num(&chars("0")), Some(Num::from_int(0)));
    assert_eq!(parse_num(&chars("100000")), Some(Num::from_int(100_000)));
}

#[test]
fn parse_signed_numbers() {
    assert_eq!(parse_num(&chars("-42")), Some(Num::from_int(-42)));
    assert_eq!(parse_num(&chars("+7")), Some(Num::from_int(7)));
}

#[test]
fn parse_decimal_fractions() {
    assert_eq!(parse_num(&chars("2.5")), Some(Num::from_atto(25 * ATTO_PER_UNIT / 10)));
    assert_eq!(parse_num(&chars("0.25")), Some(Num::from_atto(ATTO_PER_UNIT / 4)));
    assert_eq!(
        parse_num(&chars("3.14159")),
        Some(Num::from_atto(3_141_590_000_000_000_000))
    );
    assert_eq!(parse_num(&chars("-0.5")), Some(Num::from_atto(-(ATTO_PER_UNIT / 2))));
}

#[test]
fn parse_dot_edge_forms() {
    assert_eq!(parse_num(&chars(".5")), Some(Num::from_atto(ATTO_PER_UNIT / 2)));
    assert_eq!(parse_num(&chars("5.")), Some(Num::from_int(5)));
    assert_eq!(parse_num(&chars(".")), None);
}

#[test]
fn parse_exponents() {
    assert_eq!(parse_num(&chars("1e3")), Some(Num::from_int(1000)));
    assert_eq!(parse_num(&chars("2.5e-2")), Some(Num::from_atto(ATTO_PER_UNIT / 40)));
    assert_eq!(parse_num(&chars("1E2")), Some(Num::from_int(100)));
    assert_eq!(parse_num(&chars("4e+1")), Some(Num::from_int(40)));
}

#[test]
fn parse_rejects_garbage() {
    assert_eq!(parse_num(&chars("")), None);
    assert_eq!(parse_num(&chars("abc")), None);
    assert_eq!(parse_num(&chars("1.2.3")), None);
    assert_eq!(parse_num(&chars("1e")), None);
    assert_eq!(parse_num(&chars("e5")), None);
    assert_eq!(parse_num(&chars("12 ")), None);
    assert_eq!(parse_num(&chars("inf")), None);
}

#[test]
fn parse_rejects_out_of_range() {
    // beyond 10^18 whole units
    assert_eq!(parse_num(&chars("2000000000000000000")), None);
    assert_eq!(parse_num(&chars("1e19")), None);
    // a huge exponent on a zero mantissa still collapses to zero
    assert_eq!(parse_num(&chars("0e999")), Some(Num::from_int(0)));
    // far below resolution truncates to zero
    assert_eq!(parse_num(&chars("1e-40")), Some(Num::from_int(0)));
}

#[test]
fn strict_tolerance_boundary() {
    let e = Num::from_int(1);
    assert!(strict_close(Num::from_atto(e.to_atto() + STRICT_TOL_ATTO), e));
    assert!(!strict_close(Num::from_atto(e.to_atto() + STRICT_TOL_ATTO + 1), e));
    assert!(strict_close(Num::from_atto(e.to_atto() - STRICT_TOL_ATTO), e));
}

#[test]
fn near_tolerance_boundary() {
    let e = Num::from_int(1);
    assert!(nearly_close(Num::from_atto(e.to_atto() + NEAR_TOL_ATTO - 1), e));
    assert!(!nearly_close(Num::from_atto(e.to_atto() + NEAR_TOL_ATTO), e));
}

#[test]
fn tolerances_are_distinct_constants() {
    assert_eq!(STRICT_TOL_ATTO, 222);
    assert_eq!(NEAR_TOL_ATTO, 100_000_000_000_000);
    assert!(STRICT_TOL_ATTO < NEAR_TOL_ATTO);
}

#[test]
fn usize_decimal_round_trip() {
    for n in [0usize, 1, 9, 10, 42, 999, 1000, 123_456] {
        let digits = format_usize(n);
        assert_eq!(parse_usize(&digits), Some(n));
    }
    assert_eq!(format_usize(105), chars("105"));
    assert_eq!(parse_usize(&chars("")), None);
    assert_eq!(parse_usize(&chars("12x")), None);
}
