use my_finances::balance::Balance;
use my_finances::truncate_str;

fn money(x: f64) -> Balance {
    Balance::from_bits(x.to_bits())
}

fn amount(b: Balance) -> f64 {
    f64::from_bits(b.to_bits())
}

#[test]
fn short_text_is_not_truncated() {
    assert_eq!(truncate_str("hello", 5), "hello");
    assert_eq!(truncate_str("", 0), "");
}

#[test]
fn long_text_is_cut_and_marked() {
    assert_eq!(truncate_str("hello world", 5), "hello...");
    assert_eq!(truncate_str("hello", 0), "...");
}

#[test]
fn truncation_counts_bytes() {
    // Two bytes per letter.
    assert_eq!(truncate_str("\u{e9}\u{e9}\u{e9}", 4), "\u{e9}\u{e9}...");
    assert_eq!(truncate_str("\u{e9}\u{e9}\u{e9}", 6), "\u{e9}\u{e9}\u{e9}");
}

#[test]
fn bits_go_round() {
    for x in [0.0, -0.0, 1.5, -1.5, 1e300, -1e300, f64::INFINITY, f64::NEG_INFINITY] {
        assert_eq!(amount(money(x)).to_bits(), x.to_bits());
    }
}

#[test]
fn keys_order_like_amounts() {
    let ordered = [f64::NEG_INFINITY, -1e10, -2.0, -1e-300, 0.0, 1e-300, 2.0, f64::INFINITY];
    for pair in ordered.windows(2) {
        assert!(money(pair[0]).key < money(pair[1]).key);
    }
    assert_eq!(money(0.0).key, 0);
    assert_eq!(money(-0.0).key, -1);
    assert_eq!(money(1.0).key, 0x3ff0_0000_0000_0000);
}

#[test]
fn zero_has_two_signs() {
    assert!(money(0.0).is_zero());
    assert!(money(-0.0).is_zero());
    assert!(!money(-0.0).is_negative());
    assert!(money(-1e-300).is_negative());
    assert!(!money(1e-300).is_zero());
    assert_eq!(Balance::zero(), money(0.0));
}

#[test]
fn numbers_and_finite_numbers() {
    assert!(!money(f64::NAN).is_number());
    assert!(!money(-f64::NAN).is_number());
    assert!(money(f64::INFINITY).is_number());
    assert!(!money(f64::INFINITY).is_finite());
    assert!(!money(f64::NEG_INFINITY).is_finite());
    assert!(money(f64::MAX).is_finite());
    assert!(money(f64::MIN).is_finite());
}
