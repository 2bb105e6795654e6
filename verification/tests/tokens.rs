use sql_escape::escape::{escape_ident, escape_key, escape_normal, escape_numeric, escape_rid};
use std::borrow::Cow;

fn is_borrowed(value: &Cow<'_, str>) -> bool {
    matches!(value, Cow::Borrowed(_))
}

#[test]
fn escape_ident_leaves_a_word() {
    let r = escape_ident("user_1");
    assert!(is_borrowed(&r));
    assert_eq!(r, "user_1");
}

#[test]
fn escape_ident_wraps_a_digit() {
    let r = escape_ident("1");
    assert!(!is_borrowed(&r));
    assert_eq!(r, "`1`");
}

#[test]
fn escape_ident_escapes_a_backtick() {
    assert_eq!(escape_ident("a`b"), "`a\\`b`");
    assert_eq!(escape_ident("`"), "`\\``");
    assert_eq!(escape_ident("``"), "`\\`\\``");
}

#[test]
fn escape_ident_wraps_the_empty_text() {
    let r = escape_ident("");
    assert!(!is_borrowed(&r));
    assert_eq!(r, "``");
}

#[test]
fn escape_ident_wraps_other_characters() {
    assert_eq!(escape_ident("first name"), "`first name`");
    assert_eq!(escape_ident("a-b"), "`a-b`");
    assert_eq!(escape_ident("a\\b"), "`a\\b`");
    assert_eq!(escape_ident("na\u{ef}ve"), "`na\u{ef}ve`");
    assert_eq!(escape_ident("\u{27e9}"), "`\u{27e9}`");
}

#[test]
fn escape_ident_digits_among_letters_stay_bare() {
    for s in ["a1", "1a", "_1", "1_", "_", "__", "A", "z9_Z0", "x"] {
        let r = escape_ident(s);
        assert!(is_borrowed(&r), "{s}");
        assert_eq!(r, s);
    }
}

#[test]
fn escape_ident_all_digits_are_wrapped() {
    for s in ["0", "9", "007", "1234567890"] {
        let r = escape_ident(s);
        assert!(!is_borrowed(&r), "{s}");
        assert_eq!(r, format!("`{s}`"));
    }
}

#[test]
fn escape_rid_wraps_a_number() {
    let r = escape_rid("123");
    assert!(!is_borrowed(&r));
    assert_eq!(r, "\u{27e8}123\u{27e9}");
}

#[test]
fn escape_rid_leaves_a_word() {
    let r = escape_rid("abc");
    assert!(is_borrowed(&r));
    assert_eq!(r, "abc");
}

#[test]
fn escape_rid_escapes_the_closing_bracket() {
    assert_eq!(escape_rid("a\u{27e9}b"), "\u{27e8}a\\\u{27e9}b\u{27e9}");
    assert_eq!(escape_rid("a\u{27e8}b"), "\u{27e8}a\u{27e8}b\u{27e9}");
    assert_eq!(escape_rid("\u{27e9}\u{27e9}"), "\u{27e8}\\\u{27e9}\\\u{27e9}\u{27e9}");
}

#[test]
fn escape_rid_wraps_the_empty_text() {
    assert_eq!(escape_rid(""), "\u{27e8}\u{27e9}");
}

#[test]
fn escape_rid_wraps_other_characters() {
    assert_eq!(escape_rid("a b"), "\u{27e8}a b\u{27e9}");
    assert_eq!(escape_rid("a`b"), "\u{27e8}a`b\u{27e9}");
    assert_eq!(escape_rid("8424486b-85b3-4448-ac8d-5d51083391c7"), "\u{27e8}8424486b-85b3-4448-ac8d-5d51083391c7\u{27e9}");
}

#[test]
fn escape_key_leaves_a_word() {
    let r = escape_key("user_1");
    assert!(is_borrowed(&r));
    assert_eq!(r, "user_1");
}

#[test]
fn escape_key_leaves_digits() {
    let r = escape_key("123");
    assert!(is_borrowed(&r));
    assert_eq!(r, "123");
}

#[test]
fn escape_key_leaves_the_empty_text() {
    let r = escape_key("");
    assert!(is_borrowed(&r));
    assert_eq!(r, "");
}

#[test]
fn escape_key_escapes_a_double_quote() {
    assert_eq!(escape_key("a\"b"), "\"a\\\"b\"");
    assert_eq!(escape_key("\""), "\"\\\"\"");
}

#[test]
fn escape_key_wraps_other_characters() {
    assert_eq!(escape_key("first name"), "\"first name\"");
    assert_eq!(escape_key("it's"), "\"it's\"");
    assert_eq!(escape_key("a\\b"), "\"a\\b\"");
    assert_eq!(escape_key("cl\u{e9}"), "\"cl\u{e9}\"");
}

#[test]
fn escape_normal_borrows_words() {
    for s in ["", "a", "Z", "0", "_", "abc_DEF_123", "42"] {
        let r = escape_normal(s, '<', '>', "&gt;");
        assert!(is_borrowed(&r), "{s}");
        assert_eq!(r, s);
    }
}

#[test]
fn escape_normal_replaces_each_closing_delimiter() {
    assert_eq!(escape_normal("a>b", '<', '>', "&gt;"), "<a&gt;b>");
    assert_eq!(escape_normal(">>", '<', '>', "&gt;"), "<&gt;&gt;>");
    assert_eq!(escape_normal("a<b", '<', '>', "&gt;"), "<a<b>");
    assert_eq!(escape_normal("a>b", '<', '>', ""), "<ab>");
    assert_eq!(escape_normal("a b", '[', ']', "\\]"), "[a b]");
}

#[test]
fn escape_normal_word_delimiter_inside_a_word_is_left() {
    let r = escape_normal("axb", '(', 'x', "\\x");
    assert!(is_borrowed(&r));
    assert_eq!(r, "axb");
    assert_eq!(escape_normal("ax b", '(', 'x', "\\x"), "(a\\x bx");
}

#[test]
fn escape_normal_class_boundaries() {
    for c in ['/', ':', '@', '[', '`', '{', ' ', '-', '.', '\u{7f}', '\u{80}', '\u{e9}', '\u{ff10}'] {
        let s = format!("a{c}");
        let r = escape_normal(&s, '<', '>', "\\>");
        assert!(!is_borrowed(&r), "{s:?}");
        assert_eq!(r, format!("<a{c}>"));
    }
    for c in ['0', '9', 'A', 'Z', 'a', 'z', '_'] {
        let s = format!("{c}");
        assert!(is_borrowed(&escape_normal(&s, '<', '>', "\\>")), "{s:?}");
    }
}

#[test]
fn escape_numeric_wraps_digits_and_the_empty_text() {
    for s in ["", "0", "42", "0123456789"] {
        let r = escape_numeric(s, '<', '>', "\\>");
        assert!(!is_borrowed(&r), "{s}");
        assert_eq!(r, format!("<{s}>"));
    }
}

#[test]
fn escape_numeric_borrows_words_with_a_non_digit() {
    for s in ["a", "_", "4x", "x4", "4_2", "abc"] {
        let r = escape_numeric(s, '<', '>', "\\>");
        assert!(is_borrowed(&r), "{s}");
        assert_eq!(r, s);
    }
}

#[test]
fn escape_numeric_replaces_each_closing_delimiter() {
    assert_eq!(escape_numeric("1>2", '<', '>', "\\>"), "<1\\>2>");
    assert_eq!(escape_numeric("a>", '<', '>', "&gt;"), "<a&gt;>");
    assert_eq!(escape_numeric("1 2", '<', '>', "\\>"), "<1 2>");
}

#[test]
fn escape_numeric_byte_next_to_the_digits_is_no_digit() {
    assert_eq!(escape_numeric("/", '<', '>', "\\>"), "</>");
    assert_eq!(escape_numeric(":", '<', '>', "\\>"), "<:>");
    assert_eq!(escape_numeric("\u{661}", '<', '>', "\\>"), "<\u{661}>");
}
