use save_trim::literals::restore;
use save_trim::literals::restore_one;
use save_trim::literals::substitute;
use save_trim::literals::substitute_one;
use save_trim::literals::Literal;
use save_trim::replace::replace;
use save_trim::replace::stands_at;

const NEG_INFINITY: &str = "0a3ff2db148fc58333d206b7ff3b3a80d4c0bcb2072d8ce45a397411";
const INFINITY: &str = "0852cefd0e445e0228605787a763fe79d75bb4ad92c32a78d43b8aed";
const NAN: &str = "9207845e5abaca58cc1ed24084c9fa7c3640b2dc45f96ee680a72938";

fn text(bytes: Vec<u8>) -> String {
    String::from_utf8(bytes).unwrap()
}

#[test]
fn replace_takes_occurrences_from_the_left() {
    assert_eq!(replace(b"aaaa", b"aa", b"b"), b"bb".to_vec());
    assert_eq!(replace(b"aaa", b"aa", b"b"), b"ba".to_vec());
    assert_eq!(replace(b"abcabc", b"bc", b"XYZ"), b"aXYZaXYZ".to_vec());
    assert_eq!(replace(b"abab", b"ab", b""), b"".to_vec());
}

#[test]
fn replace_does_not_look_into_what_it_put_in() {
    assert_eq!(replace(b"aab", b"ab", b"b"), b"ab".to_vec());
    assert_eq!(replace(b"xx", b"x", b"xx"), b"xxxx".to_vec());
}

#[test]
fn replace_leaves_a_text_without_the_pattern() {
    assert_eq!(replace(b"hello", b"xyz", b"!"), b"hello".to_vec());
    assert_eq!(replace(b"hi", b"hello", b"!"), b"hi".to_vec());
    assert_eq!(replace(b"", b"a", b"b"), b"".to_vec());
}

#[test]
fn an_empty_pattern_is_not_replaced() {
    assert_eq!(replace(b"abc", b"", b"-"), b"abc".to_vec());
    assert!(stands_at(b"abc", b"", 3));
    assert!(!stands_at(b"abc", b"", 4));
}

#[test]
fn stands_at_compares_at_the_position() {
    assert!(stands_at(b"hello", b"ll", 2));
    assert!(!stands_at(b"hello", b"ll", 1));
    assert!(!stands_at(b"hello", b"lo!", 3));
    assert!(stands_at(b"hello", b"hello", 0));
    assert!(!stands_at(b"hello", b"o", usize::MAX));
}

#[test]
fn tokens_and_placeholders() {
    assert_eq!(Literal::NegInfinity.token_text(), "-Infinity");
    assert_eq!(Literal::Infinity.token_text(), "Infinity");
    assert_eq!(Literal::NaN.token_text(), "NaN");
    assert_eq!(Literal::NegInfinity.placeholder_text(), NEG_INFINITY);
    assert_eq!(Literal::Infinity.placeholder_text(), INFINITY);
    assert_eq!(Literal::NaN.placeholder_text(), NAN);
}

#[test]
fn substitute_puts_placeholders_for_values() {
    let input = b"{\"a\": Infinity, \"b\": -Infinity, \"c\": NaN}";
    let expected =
        format!("{{\"a\": \"{}\", \"b\": \"{}\", \"c\": \"{}\"}}", INFINITY, NEG_INFINITY, NAN);
    assert_eq!(text(substitute(input)), expected);
}

#[test]
fn substitute_needs_the_lead() {
    let input = b"[Infinity, NaN] \"a\":Infinity \"Infinity\" NaN: -Infinity";
    assert_eq!(substitute(input), input.to_vec());
}

#[test]
fn substitute_one_leaves_the_other_literals() {
    let input = b"\": NaN\": Infinity";
    assert_eq!(
        text(substitute_one(input, Literal::NaN)),
        format!("\": \"{}\"\": Infinity", NAN)
    );
}

#[test]
fn restore_puts_literals_for_placeholder_strings() {
    let input = format!("[\"{}\", \"{}\", \"{}\", \"x\"]", NAN, NEG_INFINITY, INFINITY);
    assert_eq!(text(restore(input.as_bytes())), "[NaN, -Infinity, Infinity, \"x\"]");
}

#[test]
fn restore_needs_the_quotes() {
    let input = format!("{} \"{}x\" \"{}", NAN, INFINITY, NEG_INFINITY);
    assert_eq!(text(restore(input.as_bytes())), input);
}

#[test]
fn restore_one_leaves_the_other_placeholders() {
    let input = format!("\"{}\" \"{}\"", NAN, INFINITY);
    assert_eq!(
        text(restore_one(input.as_bytes(), Literal::Infinity)),
        format!("\"{}\" Infinity", NAN)
    );
}

#[test]
fn restore_undoes_substitute() {
    let input = "{\n  \"a\": Infinity,\n  \"b\": [\n    1\n  ],\n  \"c\": -Infinity,\n  \"d\": NaN\n}";
    let strict = substitute(input.as_bytes());
    assert_ne!(strict, input.as_bytes().to_vec());
    assert_eq!(text(restore(&strict)), input);
}

#[test]
fn restore_undoes_substitute_where_a_literal_follows_a_literal() {
    let input = "\": -Infinity\": NaN\": Infinity: NaN";
    let strict = substitute(input.as_bytes());
    assert_eq!(
        text(strict.clone()),
        format!("\": \"{}\"\": \"{}\"\": \"{}\": \"{}\"", NEG_INFINITY, NAN, INFINITY, NAN)
    );
    assert_eq!(text(restore(&strict)), input);
}
