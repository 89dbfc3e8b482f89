use tempus::arith::{div_trunc, rem_trunc};
use tempus::text::{
    chars_of, i64_to_text, parse_i64, push_padded_left, push_padded_right, split_first_space,
    text_eq, trim,
};

#[test]
fn trim_removes_unicode_white_space_at_both_ends() {
    assert_eq!(trim("  hello world \t\n"), "hello world");
    assert_eq!(trim("\u{3000}\u{a0}x\u{2009}"), "x");
    assert_eq!(trim("   "), "");
    assert_eq!(trim(""), "");
    assert_eq!(trim("a b"), "a b");
}

#[test]
fn trim_agrees_with_std() {
    for s in ["", " ", "x", " \u{85}a\u{2028} ", "\u{200b}a\u{200b}", "\r\n:add milk\r\n"] {
        assert_eq!(trim(s), s.trim());
    }
}

#[test]
fn trim_twice_is_trim_once() {
    let s = "\t  :start  reading \n";
    assert_eq!(trim(&trim(s)), trim(s));
}

#[test]
fn parse_i64_reads_signed_decimal_integers() {
    assert_eq!(parse_i64("42"), Some(42));
    assert_eq!(parse_i64("+7"), Some(7));
    assert_eq!(parse_i64("-0"), Some(0));
    assert_eq!(parse_i64("-15"), Some(-15));
    assert_eq!(parse_i64("007"), Some(7));
    assert_eq!(parse_i64("9223372036854775807"), Some(i64::MAX));
    assert_eq!(parse_i64("-9223372036854775808"), Some(i64::MIN));
}

#[test]
fn parse_i64_refuses_what_std_refuses() {
    for s in ["", "+", "-", " 5", "5 ", "1_000", "12a", "--1", "+-1", "9223372036854775808",
        "-9223372036854775809", "99999999999999999999999", "abc"] {
        assert_eq!(parse_i64(s), None, "input {:?}", s);
        assert!(s.parse::<i64>().is_err());
    }
}

#[test]
fn parse_i64_agrees_with_std() {
    for s in ["0", "12", "-12", "+12", "x", "", "18446744073709551615", "-1"] {
        assert_eq!(parse_i64(s), s.parse::<i64>().ok());
    }
}

#[test]
fn i64_to_text_writes_decimal() {
    assert_eq!(i64_to_text(0), "0");
    assert_eq!(i64_to_text(7), "7");
    assert_eq!(i64_to_text(-42), "-42");
    assert_eq!(i64_to_text(i64::MAX), "9223372036854775807");
    assert_eq!(i64_to_text(i64::MIN), "-9223372036854775808");
}

#[test]
fn parse_of_text_gives_back_the_integer() {
    for n in [0i64, 1, -1, 10, 99, -100, 123456789, i64::MAX, i64::MIN, i64::MIN + 1] {
        assert_eq!(parse_i64(&i64_to_text(n)), Some(n));
        assert_eq!(i64_to_text(n), n.to_string());
    }
}

#[test]
fn split_first_space_splits_once() {
    assert_eq!(split_first_space(":start read a book"), (":start".to_string(), Some("read a book".to_string())));
    assert_eq!(split_first_space(":end"), (":end".to_string(), None));
    assert_eq!(split_first_space("a  b"), ("a".to_string(), Some(" b".to_string())));
    assert_eq!(split_first_space("a\tb"), ("a\tb".to_string(), None));
    assert_eq!(split_first_space(""), ("".to_string(), None));
}

#[test]
fn text_eq_compares_characters() {
    assert!(text_eq(":help", ":help"));
    assert!(!text_eq(":help", ":Help"));
    assert!(!text_eq(":help", ":help "));
    assert!(text_eq("", ""));
}

#[test]
fn chars_of_lists_characters() {
    assert_eq!(chars_of("a✓b"), vec!['a', '✓', 'b']);
}

#[test]
fn padding_counts_characters() {
    let mut s = String::new();
    push_padded_right(&mut s, "ab", 5);
    push_padded_left(&mut s, "7", 3);
    push_padded_right(&mut s, "███", 2);
    assert_eq!(s, format!("{:<5}{:>3}{:<2}", "ab", 7, "███"));
}

#[test]
fn division_rounds_toward_zero_as_rust_does() {
    for (a, b) in [(7i64, 2i64), (-7, 2), (7, -2), (-7, -2), (0, 5), (i64::MIN, 2), (i64::MAX, -1), (i64::MIN, 1)] {
        assert_eq!(div_trunc(a, b), a / b);
        assert_eq!(rem_trunc(a, b), a % b);
    }
    assert_eq!(div_trunc(-7, 2), -3);
    assert_eq!(rem_trunc(-7, 2), -1);
}
