//! What the renderer writes, as functions on sequences of characters.

use vstd::prelude::*;
use crate::charset::{all_digits, all_word};

verus! {

/// `s` with every occurrence of the character `from` replaced by the
/// characters of `to`, everything else kept in place.
pub open spec fn replace_char(s: Seq<char>, from: char, to: Seq<char>) -> Seq<char>
    decreases s.len(),
{
    if s.len() == 0 {
        Seq::empty()
    } else {
        replace_char(s.drop_last(), from, to) + if s.last() == from {
            to
        } else {
            seq![s.last()]
        }
    }
}

/// `s` between the delimiters `open` and `close`, each `close` inside it
/// replaced by `escape`.
pub open spec fn delimited_text(s: Seq<char>, open: char, close: char, escape: Seq<char>) -> Seq<
    char,
> {
    seq![open] + replace_char(s, close, escape) + seq![close]
}

/// A token that is delimited only where it has to be: `s` itself where it is
/// made of word characters, `s` between delimiters otherwise.
pub open spec fn normal_text(s: Seq<char>, open: char, close: char, escape: Seq<char>) -> Seq<
    char,
> {
    if all_word(s) {
        s
    } else {
        delimited_text(s, open, close, escape)
    }
}

/// A token that must not read as a number: `s` itself where it is made of
/// word characters that are not all digits, `s` between delimiters otherwise.
/// The empty token has no character that is not a digit, and is delimited.
pub open spec fn numeric_text(s: Seq<char>, open: char, close: char, escape: Seq<char>) -> Seq<
    char,
> {
    if all_word(s) && !all_digits(s) {
        s
    } else {
        delimited_text(s, open, close, escape)
    }
}

/// An object key: bare where it is made of word characters, between double
/// quotes otherwise, each double quote inside behind a backslash.
pub open spec fn key_text(s: Seq<char>) -> Seq<char> {
    normal_text(s, '"', '"', seq!['\\', '"'])
}

/// An identifier: bare where it is made of word characters that are not all
/// digits, between backticks otherwise, each backtick inside behind a
/// backslash.
pub open spec fn ident_text(s: Seq<char>) -> Seq<char> {
    numeric_text(s, '`', '`', seq!['\\', '`'])
}

/// A segment of a record id: bare where it is made of word characters that
/// are not all digits, between angle brackets otherwise, each closing
/// bracket inside behind a backslash.
pub open spec fn record_id_text(s: Seq<char>) -> Seq<char> {
    numeric_text(s, '\u{27e8}', '\u{27e9}', seq!['\\', '\u{27e9}'])
}

/// What one character of a string becomes inside quotes: a backslash is
/// doubled, a double quote gets a backslash where `escape_double` is set, and
/// every other character stands for itself.
pub open spec fn escaped_char(c: char, escape_double: bool) -> Seq<char> {
    if c == '\\' {
        seq!['\\', '\\']
    } else if c == '"' && escape_double {
        seq!['\\', '"']
    } else {
        seq![c]
    }
}

/// The characters of `s`, each escaped as [`escaped_char`] says.
pub open spec fn escaped_body(s: Seq<char>, escape_double: bool) -> Seq<char>
    decreases s.len(),
{
    if s.len() == 0 {
        Seq::empty()
    } else {
        escaped_body(s.drop_last(), escape_double) + escaped_char(s.last(), escape_double)
    }
}

/// The quote character for `s`: the double quote where `s` holds a single
/// quote, the single quote otherwise.
pub open spec fn quote_char(s: Seq<char>) -> char {
    if s.contains('\'') {
        '"'
    } else {
        '\''
    }
}

/// `s` as a quoted string: the escaped body between two quote characters.
/// Double quotes are escaped only between double quotes.
pub open spec fn quoted_text(s: Seq<char>) -> Seq<char> {
    let quote = quote_char(s);
    seq![quote] + escaped_body(s, quote == '"') + seq![quote]
}

/// `s` as a plain string: the quoted string, behind the letter `s` where
/// `tagged` is set.
pub open spec fn plain_text(s: Seq<char>, tagged: bool) -> Seq<char> {
    if tagged {
        seq!['s'] + quoted_text(s)
    } else {
        quoted_text(s)
    }
}

/// Replacing in `s` followed by `c` is replacing in `s`, then writing `c` or
/// what replaces it.
pub proof fn lemma_replace_char_push(s: Seq<char>, c: char, from: char, to: Seq<char>)
    ensures
        replace_char(s.push(c), from, to) == replace_char(s, from, to) + if c == from {
            to
        } else {
            seq![c]
        },
{
    assert(s.push(c).drop_last() == s);
}

/// Replacing in `c` followed by `s` is writing `c` or what replaces it, then
/// replacing in `s`.
pub proof fn lemma_replace_char_front(c: char, s: Seq<char>, from: char, to: Seq<char>)
    ensures
        replace_char(seq![c] + s, from, to) == (if c == from {
            to
        } else {
            seq![c]
        }) + replace_char(s, from, to),
    decreases s.len(),
{
    let head = if c == from {
        to
    } else {
        seq![c]
    };
    if s.len() == 0 {
        assert(seq![c] + s == Seq::<char>::empty().push(c));
        lemma_replace_char_push(Seq::empty(), c, from, to);
        assert(Seq::<char>::empty() + head == head + Seq::<char>::empty());
    } else {
        let last = if s.last() == from {
            to
        } else {
            seq![s.last()]
        };
        assert((seq![c] + s).drop_last() == seq![c] + s.drop_last());
        lemma_replace_char_front(c, s.drop_last(), from, to);
        assert((head + replace_char(s.drop_last(), from, to)) + last == head + (replace_char(
            s.drop_last(),
            from,
            to,
        ) + last));
    }
}

/// The body of `s` followed by `c` is the body of `s`, then `c` escaped.
pub proof fn lemma_escaped_body_push(s: Seq<char>, c: char, escape_double: bool)
    ensures
        escaped_body(s.push(c), escape_double) == escaped_body(s, escape_double) + escaped_char(
            c,
            escape_double,
        ),
{
    assert(s.push(c).drop_last() == s);
}

/// The body of `c` followed by `s` is `c` escaped, then the body of `s`.
pub proof fn lemma_escaped_body_front(c: char, s: Seq<char>, escape_double: bool)
    ensures
        escaped_body(seq![c] + s, escape_double) == escaped_char(c, escape_double) + escaped_body(
            s,
            escape_double,
        ),
    decreases s.len(),
{
    let head = escaped_char(c, escape_double);
    if s.len() == 0 {
        assert(seq![c] + s == Seq::<char>::empty().push(c));
        lemma_escaped_body_push(Seq::empty(), c, escape_double);
        assert(Seq::<char>::empty() + head == head + Seq::<char>::empty());
    } else {
        let last = escaped_char(s.last(), escape_double);
        assert((seq![c] + s).drop_last() == seq![c] + s.drop_last());
        lemma_escaped_body_front(c, s.drop_last(), escape_double);
        assert((head + escaped_body(s.drop_last(), escape_double)) + last == head + (escaped_body(
            s.drop_last(),
            escape_double,
        ) + last));
    }
}

} // verus!
