//! Numbers of any length: how they are read, written, compared and rounded.
use arb_trader::decimal::{read, Ratio};
use arb_trader::digits::{digits_of, divide, high_part, less, minus, plus, times, times_ten_to, zeros_below};
use arb_trader::money::plain_text;
use arb_trader::ratio::FARTHEST;

fn text(s: &str) -> Option<String> {
    read(s).map(|d| d.text())
}

#[test]
fn a_number_is_written_one_way_however_it_was_spelled() {
    for (given, written) in [
        ("0.2500", "0.25"),
        ("0.25000", "0.25"),
        ("+0.25", "0.25"),
        (".25", "0.25"),
        ("25e-2", "0.25"),
        ("0.0025E+2", "0.25"),
        ("7", "7"),
        ("007.", "7"),
        ("1e3", "1000"),
        ("-0.10", "-0.1"),
        ("-0.00", "0"),
        ("0.1234567", "0.1234567"),
        ("0.12345670", "0.1234567"),
        ("123456789012345678901234567890.5", "123456789012345678901234567890.5"),
        ("1e-10", "0.0000000001"),
    ] {
        assert_eq!(text(given).as_deref(), Some(written), "{given}");
    }
}

#[test]
fn what_is_no_number_is_not_read() {
    for s in ["", "+", "-", ".", "e5", "1e", "1e+", "1.2.3", "1,5", "nan", "1e6145", "1 ", "--1"] {
        assert_eq!(text(s), None, "{s:?}");
    }
    assert!(text("1e-6144").is_some());
}

#[test]
fn a_fraction_lies_between_two_whole_numbers() {
    for (given, down, up, nearest) in [
        ("123456", 123_456, 123_456, 123_456),
        ("-25e1", -250, -250, -250),
        ("0.7", 0, 1, 1),
        ("0.00000000000000000000001", 0, 1, 0),
        ("-0.7", -1, 0, -1),
        ("-12.5", -13, -12, -12),
        ("-13.5", -14, -13, -14),
        ("12.5", 12, 13, 12),
        ("13.5", 13, 14, 14),
        ("13.4999999999999999999999", 13, 14, 13),
        ("9000000000000000000", FARTHEST, FARTHEST, FARTHEST),
        ("9000000000000000000.5", FARTHEST, FARTHEST, FARTHEST),
        ("8999999999999999999.75", FARTHEST - 1, FARTHEST, FARTHEST),
        ("1e30", FARTHEST, FARTHEST, FARTHEST),
        ("-1e30", -FARTHEST, -FARTHEST, -FARTHEST),
        ("-10000000000000000000.5", -FARTHEST, -FARTHEST, -FARTHEST),
    ] {
        let x = Ratio::read(given).expect("a number");
        assert_eq!((x.down(), x.up(), x.shown()), (down, up, nearest), "{given}");
    }
    assert_eq!(plain_text(-1_500_000), "-1.5");
    assert_eq!(plain_text(0), "0");
}

#[test]
fn fractions_are_taken_apart_and_put_together() {
    let x = |s: &str| Ratio::read(s).expect("a number");
    assert_eq!(x("0.7").less_by(&x("0.95")).scaled(100).shown(), -25);
    assert_eq!(x("1").shared(8).scaled(1_000).shown(), 125);
    assert_eq!(x("0.25").spread().scaled(10_000).shown(), 1_875, "a quarter of three quarters");
    assert_eq!(x("1.5").spread().scaled(100).shown(), -75, "and past one it is owed");
    assert_eq!(x("-0.5").spread().scaled(100).shown(), -75);
    assert_eq!(x("12.01").ceiling().shown(), 13);
    assert_eq!(x("-12.01").ceiling().shown(), -12);
    assert_eq!(x("12").ceiling().shown(), 12);
    assert!(x("0.1").above(0) && !x("0").above(0) && !x("-3").above(-3));
    assert!(x("-0.1").under(0) && !x("0").under(0) && x("2.9999").under(3));
    assert_eq!(Ratio::dollars(-250_000).scaled(4).shown(), -1);
    assert_eq!(Ratio::whole(-7).down(), -7);
}

#[test]
fn digits_add_multiply_and_compare() {
    let a = digits_of(999);
    let b = digits_of(1);
    assert_eq!(high_part(&plus(&a, &b), 0, u64::MAX), Some(1_000));
    assert_eq!(high_part(&times(&a, &a), 0, u64::MAX), Some(998_001));
    assert_eq!(high_part(&times_ten_to(&a, 3), 0, u64::MAX), Some(999_000));
    assert_eq!(high_part(&times_ten_to(&a, 3), 3, u64::MAX), Some(999));
    assert_eq!(high_part(&minus(&times_ten_to(&b, 3), &b), 0, u64::MAX), Some(999));
    let (q, rest) = divide(&digits_of(1_234_567), &digits_of(890));
    assert_eq!(high_part(&q, 0, u64::MAX), Some(1_387));
    assert_eq!(high_part(&rest, 0, u64::MAX), Some(137));
    assert_eq!(high_part(&a, 0, 998), None);
    assert_eq!(zeros_below(&times_ten_to(&a, 3), 5), 3);
    assert!(less(&b, &a) && !less(&a, &b) && !less(&a, &a));
}

#[test]
fn fractions_are_compared_and_rounded_exactly() {
    let third = Ratio::read("1").expect("a number").per(&read("3").expect("a number"));
    assert!(Ratio::read("0.3333333333333333333333").expect("a number").below(&third));
    assert!(third.below(&Ratio::read("0.3333333333333333333334").expect("a number")));
    assert_eq!(third.nearest_part(10_000), 3_333);
    assert_eq!(third.rest_of_one().nearest_part(10_000), 6_667);
    let half = |s: &str| Ratio::read(s).expect("a number").nearest_part(10_000);
    assert_eq!(half("0.00005"), 0, "a tie goes to the even one");
    assert_eq!(half("0.00015"), 2);
    assert_eq!(half("0.0000500000000000000001"), 1);
    assert_eq!(half("0.99999"), 10_000);
}
