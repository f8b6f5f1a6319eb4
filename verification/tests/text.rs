use ssr_bench::text::{
    append_decimal, append_fixed, append_integer, append_json_string, append_padded, decimal_text,
};

fn fixed(v: i64) -> String {
    let mut out = String::new();
    append_fixed(&mut out, v);
    out
}

fn json(s: &str) -> String {
    let mut out = String::new();
    append_json_string(&mut out, s);
    out
}

#[test]
fn decimal_has_no_leading_zeros() {
    assert_eq!(decimal_text(0), "0");
    assert_eq!(decimal_text(7), "7");
    assert_eq!(decimal_text(10), "10");
    assert_eq!(decimal_text(1_000_000), "1000000");
    assert_eq!(decimal_text(u64::MAX), "18446744073709551615");
}

#[test]
fn decimal_is_appended_to_what_is_there() {
    let mut out = String::from("n=");
    append_decimal(&mut out, 42);
    append_decimal(&mut out, 0);
    assert_eq!(out, "n=420");
}

#[test]
fn integers_carry_their_sign() {
    let mut out = String::new();
    append_integer(&mut out, -50);
    out.push(' ');
    append_integer(&mut out, 50);
    out.push(' ');
    append_integer(&mut out, i64::MIN);
    out.push(' ');
    append_integer(&mut out, i64::MAX);
    out.push(' ');
    append_integer(&mut out, 0);
    assert_eq!(out, "-50 50 -9223372036854775808 9223372036854775807 0");
}

#[test]
fn fixed_point_shows_six_places() {
    assert_eq!(fixed(0), "0.000000");
    assert_eq!(fixed(1), "0.000001");
    assert_eq!(fixed(-1), "-0.000001");
    assert_eq!(fixed(480_147_010), "480.147010");
    assert_eq!(fixed(960_000_000), "960.000000");
    assert_eq!(fixed(-1_500_000), "-1.500000");
    assert_eq!(fixed(200_000), "0.200000");
    assert_eq!(fixed(15_000), "0.015000");
    assert_eq!(fixed(i64::MAX), "9223372036854.775807");
    assert_eq!(fixed(i64::MIN), "-9223372036854.775808");
}

#[test]
fn padding_fills_to_the_width() {
    let mut out = String::from("|");
    append_padded(&mut out, "ab", 5);
    out.push('|');
    append_padded(&mut out, "abcde", 5);
    out.push('|');
    append_padded(&mut out, "abcdefg", 5);
    out.push('|');
    append_padded(&mut out, "", 2);
    out.push('|');
    append_padded(&mut out, "", 0);
    out.push('|');
    assert_eq!(out, "|ab   |abcde|abcdefg|  ||");
}

#[test]
fn padding_counts_characters_not_bytes() {
    let mut out = String::new();
    append_padded(&mut out, "häß", 5);
    out.push('|');
    assert_eq!(out, "häß  |");
}

#[test]
fn json_strings_are_quoted() {
    assert_eq!(json(""), "\"\"");
    assert_eq!(json("dioxus"), "\"dioxus\"");
    assert_eq!(json("größe ✓"), "\"größe ✓\"");
}

#[test]
fn json_strings_escape_quotes_backslashes_and_controls() {
    assert_eq!(json("a\"b"), "\"a\\\"b\"");
    assert_eq!(json("a\\b"), "\"a\\\\b\"");
    assert_eq!(json("a\nb"), "\"a\\u000ab\"");
    assert_eq!(json("\t"), "\"\\u0009\"");
    assert_eq!(json("\u{0}\u{1f}\u{20}"), "\"\\u0000\\u001f \"");
    assert_eq!(json("\"\\\""), "\"\\\"\\\\\\\"\"");
}
