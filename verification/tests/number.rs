//! Numerals and the numbers that they stand for.

use proxypilot::number::{equal_numbers, read_number};

#[test]
fn numerals_are_equal_as_floating_point_numbers_are() {
    let numerals = [
        "0",
        "-0",
        "0.0e5",
        "1",
        "-1",
        "1.0",
        "10e-1",
        "0.1",
        "0.1000000000000000055",
        "0.3",
        "0.30000000000000004",
        "-.5",
        "-0.5",
        "5.",
        "5E+0",
        "9007199254740991",
        "9007199254740992",
        "9007199254740993",
        "9007199254740994",
        "9007199254740995",
        "123456789012345678901234567890",
        "123456789012345678901234567891",
        "1e308",
        "1.7976931348623157e308",
        "1.7976931348623158e308",
        "1.7976931348623159e308",
        "1e309",
        "1e341",
        "1e342",
        "-1e400",
        "1e99999999999999999999999999",
        "2.2250738585072011e-308",
        "2.2250738585072014e-308",
        "4.9e-324",
        "5e-324",
        "2.4703282292062327e-324",
        "2.4703282292062328e-324",
        "1e-359",
        "1e-400",
        "0e99999999999999999999999999",
        "1e-99999999999999999999999999",
    ];
    for a in numerals {
        for b in numerals {
            let (x, y) = (a.parse::<f64>().unwrap(), b.parse::<f64>().unwrap());
            assert_eq!(equal_numbers(a, b), x == y, "{a} {b}");
        }
    }
}

#[test]
fn a_number_is_told_from_its_neighbours() {
    let mut seed: u64 = 0x9E37_79B9_7F4A_7C15;
    for _ in 0..200 {
        seed = seed.wrapping_mul(6364136223846793005).wrapping_add(1442695040888963407);
        let bits = (seed >> 1) % 0x7FE0_0000_0000_0000;
        let (x, next) = (f64::from_bits(bits), f64::from_bits(bits + 1));
        let short = format!("{x:e}");
        assert!(equal_numbers(&short, &format!("{x:.60e}")), "{short}");
        assert!(!equal_numbers(&short, &format!("{next:e}")), "{short}");
        assert!(!equal_numbers(&short, &format!("-{short}")), "{short}");
    }
}

#[test]
fn only_numerals_are_numbers() {
    for text in ["", "-", ".", "e5", "1e", "1e+", "1e5e5", "1E5e5", "0x1", "1 ", "+1", "NaN", "1.2.3"] {
        assert!(read_number(text).is_none(), "{text}");
        assert!(equal_numbers(text, text), "{text}");
        assert!(!equal_numbers(text, "1"), "{text}");
    }
    let (below, _) = read_number("-1.5").unwrap();
    assert!(below);
    let (below, _) = read_number("-0.0").unwrap();
    assert!(!below);
}
