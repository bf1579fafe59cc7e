use dynamodb_violation_detector::text::{
    chars_of, decimal_text, parse_integer, parse_unsigned, push_padded, push_two_digits,
    signed_decimal_text, text_precedes,
};

#[test]
fn numerals_are_plain_decimal() {
    for n in [0u128, 7, 10, 99, 100, 12345678901234567890, u128::MAX] {
        assert_eq!(decimal_text(n), n.to_string());
    }
    for n in [0i64, -1, 42, i64::MIN, i64::MAX] {
        assert_eq!(signed_decimal_text(n), n.to_string());
    }
}

#[test]
fn numerals_read_back() {
    for n in [0u64, 1, 9, 10, 255, 256, u64::MAX] {
        assert_eq!(parse_unsigned(&n.to_string(), u64::MAX), Some(n));
    }
    for text in ["", "+", "-1", "1 ", "1a", "++1", "٣"] {
        assert_eq!(parse_unsigned(text, u64::MAX), text.parse::<u64>().ok(), "{text:?}");
    }
    for text in ["0", "255", "256", "+7", "007", "99999999999999999999999"] {
        assert_eq!(
            parse_unsigned(text, 255),
            text.parse::<u8>().ok().map(u64::from),
            "{text:?}"
        );
    }
}

#[test]
fn integers_have_a_sign_and_a_magnitude() {
    let parsed = |text: &str| parse_integer(text).map(|x| (x.negative, x.magnitude));
    assert_eq!(parsed("12"), Some((false, 12)));
    assert_eq!(parsed("-12"), Some((true, 12)));
    assert_eq!(parsed("+12"), Some((false, 12)));
    assert_eq!(parsed("-"), None);
    assert_eq!(parsed("1.0"), None);
    assert_eq!(parsed(&"9".repeat(60)), Some((false, u128::MAX)));
    assert_eq!(
        parsed("340282366920938463463374607431768211455"),
        Some((false, u128::MAX))
    );
    assert_eq!(
        parsed("340282366920938463463374607431768211454"),
        Some((false, u128::MAX - 1))
    );
}

#[test]
fn names_are_ordered_like_strings() {
    let names = ["", "a", "aa", "ab", "b", "B", "é", "漢", "😀", "\u{ffff}"];
    for a in names {
        for b in names {
            assert_eq!(text_precedes(a, b), a < b, "{a:?} {b:?}");
        }
    }
    assert_eq!(chars_of("aé漢"), vec!['a', 'é', '漢']);
}

#[test]
fn padding_counts_characters() {
    let padded = |s: &str, width: usize| {
        let mut out = String::from("|");
        push_padded(&mut out, s, width);
        out
    };
    assert_eq!(padded("ab", 4), format!("|{:<4}", "ab"));
    assert_eq!(padded("é·漢", 5), format!("|{:<5}", "é·漢"));
    assert_eq!(padded("abcdef", 3), "|abcdef");
    for n in [0u64, 5, 9, 10, 59, 100] {
        let mut out = String::new();
        push_two_digits(&mut out, n);
        assert_eq!(out, format!("{n:02}"));
    }
}
