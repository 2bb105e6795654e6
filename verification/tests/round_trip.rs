use sql_escape::escape::{escape_ident, escape_key, escape_rid, prefix_ambiguous, quote_str};

/// Reads what follows an opening delimiter: the body up to the closing
/// delimiter, which must end the text, with `\\` and `\close` undone.
fn read_body(text: &str, close: char) -> Option<String> {
    let mut out = String::new();
    let mut chars = text.chars();
    loop {
        match chars.next()? {
            c if c == close => {
                return if chars.next().is_none() {
                    Some(out)
                } else {
                    None
                };
            }
            '\\' => match chars.next()? {
                c if c == '\\' || c == close => out.push(c),
                _ => return None,
            },
            c => out.push(c),
        }
    }
}

fn read_string(text: &str) -> Option<String> {
    let mut chars = text.chars();
    match chars.next()? {
        quote @ ('\'' | '"') => read_body(chars.as_str(), quote),
        _ => None,
    }
}

fn read_plain_string(text: &str) -> Option<String> {
    match text.strip_prefix('s') {
        Some(rest) => read_string(rest),
        None => read_string(text),
    }
}

fn is_word(text: &str) -> bool {
    text.chars().all(|c| c.is_ascii_alphanumeric() || c == '_')
}

fn read_token(text: &str, open: char, close: char, numeric: bool) -> Option<String> {
    match text.strip_prefix(open) {
        Some(rest) => read_body(rest, close),
        None if is_word(text) && !(numeric && text.chars().all(|c| c.is_ascii_digit())) => {
            Some(text.to_string())
        }
        None => None,
    }
}

const STRINGS: [&str; 16] = [
    "",
    "cat",
    "cat's",
    "cat's \"toy\"",
    "say \"hi\"",
    "\\",
    "\\\\",
    "a\\b",
    "it's \\",
    "\\'",
    "\\\"",
    "'\\\"'",
    "line\nbreak",
    "na\u{ef}ve \u{1f600}",
    "2021-01-01T00:00:00Z",
    "s'x'",
];

const TOKENS: [&str; 14] = [
    "",
    "a",
    "user_1",
    "1",
    "123",
    "a b",
    "a`b",
    "`",
    "a\"b",
    "\"",
    "a\u{27e9}b",
    "\u{27e8}\u{27e9}",
    "na\u{ef}ve",
    "it's",
];

#[test]
fn quoted_strings_read_back() {
    for s in STRINGS {
        assert_eq!(read_string(&quote_str(s)).as_deref(), Some(s), "{s:?}");
    }
}

#[test]
fn plain_strings_read_back_with_and_without_the_letter() {
    for s in STRINGS {
        for tagged in [false, true] {
            let text = prefix_ambiguous(quote_str(s), tagged);
            assert_eq!(read_plain_string(&text).as_deref(), Some(s), "{s:?}");
        }
    }
}

#[test]
fn quoted_strings_are_stable() {
    for s in STRINGS {
        let once = quote_str(s);
        let read = read_string(&once).unwrap();
        assert_eq!(quote_str(&read), once);
    }
}

#[test]
fn keys_read_back_and_are_stable() {
    for s in TOKENS {
        let once = escape_key(s);
        let read = read_token(&once, '"', '"', false);
        assert_eq!(read.as_deref(), Some(s), "{s:?}");
        assert_eq!(escape_key(&read.unwrap()), once);
    }
}

#[test]
fn identifiers_read_back_and_are_stable() {
    for s in TOKENS {
        let once = escape_ident(s);
        let read = read_token(&once, '`', '`', true);
        assert_eq!(read.as_deref(), Some(s), "{s:?}");
        assert_eq!(escape_ident(&read.unwrap()), once);
    }
}

#[test]
fn record_id_segments_read_back_and_are_stable() {
    for s in TOKENS {
        let once = escape_rid(s);
        let read = read_token(&once, '\u{27e8}', '\u{27e9}', true);
        assert_eq!(read.as_deref(), Some(s), "{s:?}");
        assert_eq!(escape_rid(&read.unwrap()), once);
    }
}

#[test]
fn bare_digits_are_no_identifier() {
    assert_eq!(read_token("123", '`', '`', true), None);
    assert_eq!(read_token("123", '"', '"', false).as_deref(), Some("123"));
}

#[test]
fn token_with_a_backslash_does_not_read_back() {
    assert_eq!(escape_key("a\\"), "\"a\\\"");
    assert_eq!(read_token(&escape_key("a\\"), '"', '"', false), None);
    assert_eq!(read_token(&escape_ident("a\\b"), '`', '`', true), None);
}
