//! How rendered text is read back, and the laws that rendering keeps.
//!
//! The reader modelled here knows the part of the literal grammar that the
//! renderer writes: a body between delimiters, in which a backslash announces
//! an escape, the escapes being the backslash itself and the closing
//! delimiter. Nothing in this module runs; it states what the rendered text
//! means.

use vstd::prelude::*;
use crate::charset::{all_digits, all_word, is_word_char};
use crate::text::{
    delimited_text,
    escaped_body,
    escaped_char,
    ident_text,
    key_text,
    lemma_escaped_body_front,
    lemma_replace_char_front,
    normal_text,
    numeric_text,
    plain_text,
    quote_char,
    quoted_text,
    record_id_text,
    replace_char,
};

verus! {

/// `head` put before what `rest` holds, if it holds anything.
pub open spec fn prepend(head: char, rest: Option<Seq<char>>) -> Option<Seq<char>> {
    match rest {
        Some(tail) => Some(seq![head] + tail),
        None => None,
    }
}

/// What `text` stands for, `text` being all that follows an opening
/// delimiter: the body up to the first `close` that no backslash escapes,
/// with each escape undone. `None` where `text` has no such `close`, where
/// anything follows it, or where a backslash is followed by something other
/// than a backslash or `close`.
pub open spec fn unescaped(text: Seq<char>, close: char) -> Option<Seq<char>>
    decreases text.len(),
{
    if text.len() == 0 {
        None
    } else if text[0] == close {
        if text.len() == 1 {
            Some(Seq::empty())
        } else {
            None
        }
    } else if text[0] == '\\' {
        if text.len() >= 2 && (text[1] == '\\' || text[1] == close) {
            prepend(text[1], unescaped(text.skip(2), close))
        } else {
            None
        }
    } else {
        prepend(text[0], unescaped(text.skip(1), close))
    }
}

/// The string that `text` is a literal of: `text` opens with a single or a
/// double quote and closes with the same.
pub open spec fn lex_string(text: Seq<char>) -> Option<Seq<char>> {
    if text.len() > 0 && (text[0] == '\'' || text[0] == '"') {
        unescaped(text.skip(1), text[0])
    } else {
        None
    }
}

/// The string that `text` is a literal of, where the literal may carry the
/// letter `s` in front.
pub open spec fn lex_plain_string(text: Seq<char>) -> Option<Seq<char>> {
    if text.len() > 0 && text[0] == 's' {
        lex_string(text.skip(1))
    } else {
        lex_string(text)
    }
}

/// The token that `text` stands for: what is between `open` and `close`
/// where `text` starts with `open`, and `text` itself where it is bare and
/// made of word characters.
pub open spec fn lex_token(text: Seq<char>, open: char, close: char) -> Option<Seq<char>> {
    if text.len() > 0 && text[0] == open {
        unescaped(text.skip(1), close)
    } else if all_word(text) {
        Some(text)
    } else {
        None
    }
}

/// As [`lex_token`], for a place where bare digits are a number and no
/// token.
pub open spec fn lex_numeric_token(text: Seq<char>, open: char, close: char) -> Option<Seq<char>> {
    if text.len() > 0 && text[0] == open {
        unescaped(text.skip(1), close)
    } else if all_word(text) && !all_digits(text) {
        Some(text)
    } else {
        None
    }
}

/// An escaped body followed by its quote reads back as the string it was
/// made from.
proof fn lemma_unescaped_body(s: Seq<char>, escape_double: bool)
    requires
        !escape_double ==> !s.contains('\''),
    ensures
        unescaped(
            escaped_body(s, escape_double) + seq![
                if escape_double {
                    '"'
                } else {
                    '\''
                },
            ],
            if escape_double {
                '"'
            } else {
                '\''
            },
        ) == Some(s),
    decreases s.len(),
{
    let close = if escape_double {
        '"'
    } else {
        '\''
    };
    let text = escaped_body(s, escape_double) + seq![close];
    if s.len() == 0 {
        assert(text == seq![close]);
    } else {
        let c = s[0];
        let tail = s.drop_first();
        let rest = escaped_body(tail, escape_double) + seq![close];
        assert(s == seq![c] + tail);
        lemma_escaped_body_front(c, tail, escape_double);
        assert(text == escaped_char(c, escape_double) + rest);
        assert(!escape_double ==> !tail.contains('\'')) by {
            if !escape_double && tail.contains('\'') {
                let i = choose|i: int| 0 <= i < tail.len() && tail[i] == '\'';
                assert(s[i + 1] == '\'');
            }
        }
        lemma_unescaped_body(tail, escape_double);
        if c == '\\' || (c == '"' && escape_double) {
            assert(text.skip(2) == rest);
        } else {
            assert(c != close) by {
                if !escape_double {
                    assert(s.contains(c));
                }
            }
            assert(text.skip(1) == rest);
        }
    }
}

/// A body in which each `close` stands behind a backslash, followed by
/// `close`, reads back as the text it was made from, unless that text holds
/// a backslash of its own.
proof fn lemma_unescaped_replaced(s: Seq<char>, close: char)
    requires
        close != '\\',
        !s.contains('\\'),
    ensures
        unescaped(replace_char(s, close, seq!['\\', close]) + seq![close], close) == Some(s),
    decreases s.len(),
{
    let escape = seq!['\\', close];
    let text = replace_char(s, close, escape) + seq![close];
    if s.len() == 0 {
        assert(text == seq![close]);
    } else {
        let c = s[0];
        let tail = s.drop_first();
        let rest = replace_char(tail, close, escape) + seq![close];
        assert(s == seq![c] + tail);
        lemma_replace_char_front(c, tail, close, escape);
        assert(!tail.contains('\\')) by {
            if tail.contains('\\') {
                let i = choose|i: int| 0 <= i < tail.len() && tail[i] == '\\';
                assert(s[i + 1] == '\\');
            }
        }
        lemma_unescaped_replaced(tail, close);
        if c == close {
            assert(text == escape + rest);
            assert(text.skip(2) == rest);
        } else {
            assert(s.contains(c));
            assert(text == seq![c] + rest);
            assert(text.skip(1) == rest);
        }
    }
}

/// A string without backslashes, and without double quotes where those are
/// escaped, is its own body.
proof fn lemma_plain_body(s: Seq<char>, escape_double: bool)
    requires
        !s.contains('\\'),
        escape_double ==> !s.contains('"'),
    ensures
        escaped_body(s, escape_double) == s,
    decreases s.len(),
{
    if s.len() > 0 {
        let front = s.drop_last();
        assert(s.contains(s.last()));
        assert forall|c: char| front.contains(c) implies s.contains(c) by {
            let i = choose|i: int| 0 <= i < front.len() && front[i] == c;
            assert(s[i] == c);
        }
        lemma_plain_body(front, escape_double);
        assert(front + seq![s.last()] == s);
    }
}

/// Round trip: a quoted string reads back as the string it was made from,
/// whatever that string holds.
pub proof fn law_quoted_round_trip(s: Seq<char>)
    ensures
        lex_string(quoted_text(s)) == Some(s),
{
    let quote = quote_char(s);
    let body = escaped_body(s, quote == '"');
    lemma_unescaped_body(s, quote == '"');
    assert(quoted_text(s).skip(1) == body + seq![quote]);
}

/// Round trip of a plain string: with the letter `s` in front or without it,
/// it reads back as the string it was made from.
pub proof fn law_plain_round_trip(s: Seq<char>, tagged: bool)
    ensures
        lex_plain_string(plain_text(s, tagged)) == Some(s),
{
    law_quoted_round_trip(s);
    if tagged {
        assert(plain_text(s, tagged).skip(1) == quoted_text(s));
    }
}

/// Quote minimization. A string without a single quote goes between single
/// quotes. A string with a single quote goes between double quotes, and
/// where it holds neither a double quote nor a backslash it stands between
/// them unchanged.
pub proof fn law_quote_minimal(s: Seq<char>)
    ensures
        !s.contains('\'') ==> quoted_text(s) == seq!['\''] + escaped_body(s, false) + seq!['\''],
        s.contains('\'') ==> quoted_text(s) == seq!['"'] + escaped_body(s, true) + seq!['"'],
        !s.contains('\\') && !(s.contains('\'') && s.contains('"')) ==> quoted_text(s) == seq![
            quote_char(s),
        ] + s + seq![quote_char(s)],
{
    if !s.contains('\\') && !(s.contains('\'') && s.contains('"')) {
        lemma_plain_body(s, quote_char(s) == '"');
    }
}

/// Round trip of a token: what [`normal_text`] writes reads back as the
/// token, where the escape is a backslash and the closing delimiter, the
/// opening delimiter is no word character, and the token holds no backslash.
pub proof fn law_normal_round_trip(s: Seq<char>, open: char, close: char)
    requires
        !is_word_char(open),
        close != '\\',
        !s.contains('\\'),
    ensures
        lex_token(normal_text(s, open, close, seq!['\\', close]), open, close) == Some(s),
{
    let escape = seq!['\\', close];
    if all_word(s) {
        if s.len() > 0 {
            assert(is_word_char(s[0]));
        }
    } else {
        lemma_unescaped_replaced(s, close);
        assert(delimited_text(s, open, close, escape).skip(1) == replace_char(s, close, escape)
            + seq![close]);
    }
}

/// Round trip of a token that must not read as a number: what
/// [`numeric_text`] writes reads back as the token, under the conditions of
/// [`law_normal_round_trip`].
pub proof fn law_numeric_round_trip(s: Seq<char>, open: char, close: char)
    requires
        !is_word_char(open),
        close != '\\',
        !s.contains('\\'),
    ensures
        lex_numeric_token(numeric_text(s, open, close, seq!['\\', close]), open, close) == Some(s),
{
    let escape = seq!['\\', close];
    if all_word(s) && !all_digits(s) {
        assert(is_word_char(s[0]));
    } else {
        lemma_unescaped_replaced(s, close);
        assert(delimited_text(s, open, close, escape).skip(1) == replace_char(s, close, escape)
            + seq![close]);
    }
}

/// Rendering is stable under reading back: a quoted string, read and quoted
/// again, is the same text.
pub proof fn law_quoted_stable(s: Seq<char>)
    ensures
        lex_string(quoted_text(s)) matches Some(read) && quoted_text(read) == quoted_text(s),
{
    law_quoted_round_trip(s);
}

/// Rendering is stable under reading back: a plain string, read and rendered
/// again with the same tag, is the same text.
pub proof fn law_plain_stable(s: Seq<char>, tagged: bool)
    ensures
        lex_plain_string(plain_text(s, tagged)) matches Some(read) && plain_text(read, tagged)
            == plain_text(s, tagged),
{
    law_plain_round_trip(s, tagged);
}

/// Rendering is stable under reading back: a token, read and rendered again,
/// is the same text, under the conditions of [`law_normal_round_trip`].
pub proof fn law_normal_stable(s: Seq<char>, open: char, close: char)
    requires
        !is_word_char(open),
        close != '\\',
        !s.contains('\\'),
    ensures
        lex_token(normal_text(s, open, close, seq!['\\', close]), open, close) matches Some(read)
            && normal_text(read, open, close, seq!['\\', close]) == normal_text(
            s,
            open,
            close,
            seq!['\\', close],
        ),
{
    law_normal_round_trip(s, open, close);
}

/// Rendering is stable under reading back: a token that must not read as a
/// number, read and rendered again, is the same text, under the conditions
/// of [`law_normal_round_trip`].
pub proof fn law_numeric_stable(s: Seq<char>, open: char, close: char)
    requires
        !is_word_char(open),
        close != '\\',
        !s.contains('\\'),
    ensures
        lex_numeric_token(numeric_text(s, open, close, seq!['\\', close]), open, close) matches Some(
            read,
        ) && numeric_text(read, open, close, seq!['\\', close]) == numeric_text(
            s,
            open,
            close,
            seq!['\\', close],
        ),
{
    law_numeric_round_trip(s, open, close);
}

/// The three token kinds of the language, read back and rendered again: a
/// key, an identifier and a segment of a record id that hold no backslash
/// each read back as themselves, so that rendering them again writes the
/// same text.
pub proof fn law_tokens_stable(s: Seq<char>)
    requires
        !s.contains('\\'),
    ensures
        lex_token(key_text(s), '"', '"') == Some(s),
        lex_numeric_token(ident_text(s), '`', '`') == Some(s),
        lex_numeric_token(record_id_text(s), '\u{27e8}', '\u{27e9}') == Some(s),
{
    law_normal_round_trip(s, '"', '"');
    law_numeric_round_trip(s, '`', '`');
    law_numeric_round_trip(s, '\u{27e8}', '\u{27e9}');
}

} // verus!
