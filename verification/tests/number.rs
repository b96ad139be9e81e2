use rlibrary_core::number::{push_decimal, read_hex, read_u32, seconds_text, signed_text};

fn chars(s: &str) -> Vec<char> {
    s.chars().collect()
}

fn decimal_text(n: u64) -> String {
    let mut out = String::new();
    push_decimal(n, &mut out);
    out
}

#[test]
fn decimal_texts() {
    assert_eq!(decimal_text(0), "0");
    assert_eq!(decimal_text(10), "10");
    assert_eq!(decimal_text(65536), "65536");
    assert_eq!(decimal_text(u64::MAX), "18446744073709551615");
    assert_eq!(signed_text(35246529), "35246529");
    assert_eq!(signed_text(-1), "-1");
    assert_eq!(signed_text(i64::MIN), "-9223372036854775808");
    assert_eq!(signed_text(i64::MAX), "9223372036854775807");
}

#[test]
fn numbers_are_read_as_the_standard_library_reads_them() {
    for s in [
        "", "+", "-", "0", "+0", "00012", "4294967295", "4294967296", "-1", "+7", "++7", "12a", "１２", " 1",
        "99999999999999999999999999",
    ] {
        assert_eq!(read_u32(&chars(s)), s.parse::<u32>().ok(), "{s:?}");
    }
    for s in ["", "+", "0", "1a9", "FfFf", "+f", "0x1", "ffffffffffffffff", "10000000000000000", "g", "-f"] {
        assert_eq!(read_hex(&chars(s)), usize::from_str_radix(s, 16).ok(), "{s:?}");
    }
}

#[test]
fn written_numbers_read_back() {
    for n in [0u32, 9, 10, 99, 100, 4_294_967_295] {
        assert_eq!(read_u32(&chars(&decimal_text(n as u64))), Some(n));
    }
}

#[test]
fn seconds_with_three_decimals() {
    assert_eq!(seconds_text(0), "0.000");
    assert_eq!(seconds_text(7), "0.007");
    assert_eq!(seconds_text(1234), "1.234");
    assert_eq!(seconds_text(60_000), "60.000");
}

#[test]
fn seconds_match_double_precision_division() {
    let mut x: u64 = 0x9e37_79b9_7f4a_7c15;
    let mut cases: Vec<u64> = vec![
        8_796_093_022_207_999,
        8_796_093_022_208_000,
        9_007_199_254_740_991,
        9_007_199_254_740_992,
        9_007_199_254_740_993,
        1 << 63,
        u64::MAX - 1024,
        u64::MAX - 1,
        u64::MAX,
    ];
    for i in 0..300_000u64 {
        x ^= x << 13;
        x ^= x >> 7;
        x ^= x << 17;
        cases.push(x >> (i % 40));
        cases.push(8_796_093_022_208_000 - 100_000 + i);
    }
    for ms in cases {
        assert_eq!(seconds_text(ms), format!("{:.3}", ms as f64 / 1000.0));
    }
}
