//! The renderers: quoted strings, object keys, identifiers and record-id
//! segments.

use std::borrow::Cow;
use nom::character::is_digit;
use vstd::prelude::*;
use vstd::string::{StringExecFns, StringSliceAdditionalSpecFns};
use crate::charset::{
    all_digit_bytes,
    all_digits,
    all_word,
    is_digit_byte,
    is_word_byte,
    lemma_digit_bytes,
    lemma_word_bytes,
};
use crate::grammar::{
    law_normal_round_trip,
    law_numeric_round_trip,
    law_plain_round_trip,
    law_quoted_round_trip,
    lex_numeric_token,
    lex_plain_string,
    lex_string,
    lex_token,
};
use crate::probe::{accepts, may_pass, may_take};
use crate::text::{
    delimited_text,
    escaped_body,
    ident_text,
    key_text,
    lemma_escaped_body_push,
    lemma_replace_char_push,
    normal_text,
    numeric_text,
    plain_text,
    quoted_text,
    record_id_text,
    replace_char,
};

verus! {

const SINGLE: char = '\'';

const BRACKETL: char = '\u{27e8}';

const BRACKETR: char = '\u{27e9}';

const BRACKET_ESC: &'static str = "\\\u{27e9}";

const DOUBLE: char = '"';

const DOUBLE_ESC: &'static str = "\\\"";

const BACKTICK: char = '`';

const BACKTICK_ESC: &'static str = "\\`";

const STRAND_TAG: char = 's';

const BACKSLASH: char = '\\';

const BACKSLASH_ESC: &'static str = "\\\\";

const UNDERSCORE: u8 = 0x5f;

/// Whether `needle` occurs in `s`.
fn contains_char(s: &str, needle: char) -> (found: bool)
    ensures
        found == s@.contains(needle),
{
    for c in it: s.chars()
        invariant
            it.seq() == s@,
            !s@.take(it.index() as int).contains(needle),
    {
        if c == needle {
            return true;
        }
        assert(s@.take(it.index() + 1) == s@.take(it.index() as int).push(c));
    }
    assert(s@.take(s@.len() as int) == s@);
    false
}

/// Appends the characters of `s` to `into`, each backslash doubled and, where
/// `escape_double` is set, each double quote behind a backslash.
fn escape_into(into: &mut String, s: &str, escape_double: bool)
    ensures
        final(into)@ == old(into)@ + escaped_body(s@, escape_double),
{
    let ghost start = into@;
    assert(start + escaped_body(s@.take(0), escape_double) == start);
    for c in it: s.chars()
        invariant
            it.seq() == s@,
            into@ == start + escaped_body(s@.take(it.index() as int), escape_double),
    {
        proof {
            reveal_strlit("\\\\");
            reveal_strlit("\\\"");
            let done = s@.take(it.index() as int);
            assert(s@.take(it.index() + 1) == done.push(c));
            lemma_escaped_body_push(done, c, escape_double);
        }
        if c == BACKSLASH {
            into.append(BACKSLASH_ESC);
        } else if c == DOUBLE && escape_double {
            into.append(DOUBLE_ESC);
        } else {
            into.push(c);
        }
    }
    assert(s@.take(s@.len() as int) == s@);
}

/// Quotes a string with single or double quotes:
/// - `cat` gives `'cat'`
/// - `cat's` gives `"cat's"`
/// - `cat's "toy"` gives `"cat's \"toy\""`
///
/// A backslash is written twice. Double quotes are left as they are between
/// single quotes.
pub fn quote_str(s: &str) -> (ret: String)
    ensures
        ret@ == quoted_text(s@),
        lex_string(ret@) == Some(s@),
{
    let quote = if contains_char(s, SINGLE) {
        DOUBLE
    } else {
        SINGLE
    };
    let mut ret = String::new();
    ret.push(quote);
    escape_into(&mut ret, s, quote == DOUBLE);
    ret.push(quote);
    proof {
        assert(ret@ == quoted_text(s@));
        law_quoted_round_trip(s@);
    }
    ret
}

/// Puts the letter `s` before a quoted string that would read as a richer
/// literal, so that it reads as a string again, and returns any other quoted
/// string as it is.
pub fn prefix_ambiguous(quoted: String, ambiguous: bool) -> (ret: String)
    ensures
        ret@ == if ambiguous {
            seq!['s'] + quoted@
        } else {
            quoted@
        },
{
    if ambiguous {
        let mut ret = String::new();
        ret.push(STRAND_TAG);
        ret.append(quoted.as_str());
        ret
    } else {
        quoted
    }
}

/// Quotes a string as [`quote_str`] does. Under `compat`, the grammar in use
/// tries richer literals first: the three recognizers are asked about the
/// quoted string, in the order given, and where one of them takes it the
/// letter `s` is put in front. Without `compat` none of them is asked.
pub fn quote_plain_str<U, D, R>(
    s: &str,
    compat: bool,
    looks_like_uuid: U,
    looks_like_datetime: D,
    looks_like_record_id: R,
) -> (ret: String) where U: Fn(&str) -> bool, D: Fn(&str) -> bool, R: Fn(&str) -> bool
    requires
        compat ==> accepts(looks_like_uuid, quoted_text(s@)),
        compat ==> accepts(looks_like_datetime, quoted_text(s@)),
        compat ==> accepts(looks_like_record_id, quoted_text(s@)),
    ensures
        !compat ==> ret@ == plain_text(s@, false),
        compat ==> {
            ||| ret@ == plain_text(s@, true) && may_take(
                looks_like_uuid,
                looks_like_datetime,
                looks_like_record_id,
                quoted_text(s@),
            )
            ||| ret@ == plain_text(s@, false) && may_pass(
                looks_like_uuid,
                looks_like_datetime,
                looks_like_record_id,
                quoted_text(s@),
            )
        },
        lex_plain_string(ret@) == Some(s@),
{
    proof {
        law_plain_round_trip(s@, false);
        law_plain_round_trip(s@, true);
    }
    let ret = quote_str(s);
    if compat {
        let quoted = ret.as_str();
        let hit = looks_like_uuid(quoted) || looks_like_datetime(quoted) || looks_like_record_id(
            quoted,
        );
        prefix_ambiguous(ret, hit)
    } else {
        ret
    }
}

/// Writes `s` between `l` and `r`, each `r` inside it replaced by `e`.
fn delimit(s: &str, l: char, r: char, e: &str) -> (ret: String)
    ensures
        ret@ == delimited_text(s@, l, r, e@),
{
    let mut ret = String::new();
    ret.push(l);
    assert(seq![l] + replace_char(s@.take(0), r, e@) == seq![l]);
    for c in it: s.chars()
        invariant
            it.seq() == s@,
            ret@ == seq![l] + replace_char(s@.take(it.index() as int), r, e@),
    {
        proof {
            let done = s@.take(it.index() as int);
            assert(s@.take(it.index() + 1) == done.push(c));
            lemma_replace_char_push(done, c, r, e@);
        }
        if c == r {
            ret.append(e);
        } else {
            ret.push(c);
        }
    }
    assert(s@.take(s@.len() as int) == s@);
    ret.push(r);
    ret
}

/// Escapes a key if necessary
pub fn escape_key(s: &str) -> (ret: Cow<'_, str>)
    ensures
        ret@ == key_text(s@),
        all_word(s@) ==> ret == Cow::<str>::Borrowed(s),
        !all_word(s@) ==> ret is Owned,
        !s@.contains('\\') ==> lex_token(ret@, '"', '"') == Some(s@),
{
    proof {
        reveal_strlit("\\\"");
        assert(DOUBLE_ESC@ == seq!['\\', '"']);
        if !s@.contains('\\') {
            law_normal_round_trip(s@, '"', '"');
        }
    }
    escape_normal(s, DOUBLE, DOUBLE, DOUBLE_ESC)
}

/// Escapes an id if necessary
pub fn escape_rid(s: &str) -> (ret: Cow<'_, str>)
    ensures
        ret@ == record_id_text(s@),
        all_word(s@) && !all_digits(s@) ==> ret == Cow::<str>::Borrowed(s),
        !all_word(s@) || all_digits(s@) ==> ret is Owned,
        !s@.contains('\\') ==> lex_numeric_token(ret@, '\u{27e8}', '\u{27e9}') == Some(s@),
{
    proof {
        reveal_strlit("\\\u{27e9}");
        assert(BRACKET_ESC@ == seq!['\\', '\u{27e9}']);
        if !s@.contains('\\') {
            law_numeric_round_trip(s@, '\u{27e8}', '\u{27e9}');
        }
    }
    escape_numeric(s, BRACKETL, BRACKETR, BRACKET_ESC)
}

/// Escapes an ident if necessary
pub fn escape_ident(s: &str) -> (ret: Cow<'_, str>)
    ensures
        ret@ == ident_text(s@),
        all_word(s@) && !all_digits(s@) ==> ret == Cow::<str>::Borrowed(s),
        !all_word(s@) || all_digits(s@) ==> ret is Owned,
        !s@.contains('\\') ==> lex_numeric_token(ret@, '`', '`') == Some(s@),
{
    proof {
        reveal_strlit("\\`");
        assert(BACKTICK_ESC@ == seq!['\\', '`']);
        if !s@.contains('\\') {
            law_numeric_round_trip(s@, '`', '`');
        }
    }
    escape_numeric(s, BACKTICK, BACKTICK, BACKTICK_ESC)
}

/// Returns `s` itself, borrowed, where every byte of it is an ASCII letter,
/// an ASCII digit or the underscore. Otherwise returns a new string: `s`
/// between `l` and `r`, each `r` inside it replaced by `e`.
pub fn escape_normal<'a>(s: &'a str, l: char, r: char, e: &str) -> (ret: Cow<'a, str>)
    ensures
        ret@ == normal_text(s@, l, r, e@),
        all_word(s@) ==> ret == Cow::<str>::Borrowed(s),
        !all_word(s@) ==> ret is Owned,
{
    let bytes = s.as_bytes();
    let mut i: usize = 0;
    // Loop over each byte
    while i < bytes.len()
        invariant
            i <= bytes@.len(),
            bytes@ == s.spec_bytes(),
            forall|j: int| 0 <= j < i ==> is_word_byte(#[trigger] bytes@[j]),
        decreases bytes@.len() - i,
    {
        let x = bytes[i];
        // Check if the byte is allowed
        if !(x.is_ascii_alphanumeric() || x == UNDERSCORE) {
            proof {
                lemma_word_bytes(s@);
            }
            return Cow::Owned(delimit(s, l, r, e));
        }
        i += 1;
    }
    proof {
        lemma_word_bytes(s@);
    }
    // Output the value
    Cow::Borrowed(s)
}

/// As [`escape_normal`], but a text made of ASCII digits alone is delimited
/// too: bare, it would read as a number.
pub fn escape_numeric<'a>(s: &'a str, l: char, r: char, e: &str) -> (ret: Cow<'a, str>)
    ensures
        ret@ == numeric_text(s@, l, r, e@),
        all_word(s@) && !all_digits(s@) ==> ret == Cow::<str>::Borrowed(s),
        !all_word(s@) || all_digits(s@) ==> ret is Owned,
{
    let bytes = s.as_bytes();
    // Presume this is numeric
    let mut numeric = true;
    let mut i: usize = 0;
    // Loop over each byte
    while i < bytes.len()
        invariant
            i <= bytes@.len(),
            bytes@ == s.spec_bytes(),
            forall|j: int| 0 <= j < i ==> is_word_byte(#[trigger] bytes@[j]),
            numeric <==> forall|j: int| 0 <= j < i ==> is_digit_byte(#[trigger] bytes@[j]),
        decreases bytes@.len() - i,
    {
        let x = bytes[i];
        // Check if the byte is allowed
        if !(x.is_ascii_alphanumeric() || x == UNDERSCORE) {
            proof {
                lemma_word_bytes(s@);
            }
            return Cow::Owned(delimit(s, l, r, e));
        }
        // Check if the byte is non-numeric
        if !is_digit(x) {
            numeric = false;
        }
        i += 1;
    }
    proof {
        lemma_word_bytes(s@);
        lemma_digit_bytes(s@);
        assert(numeric <==> all_digit_bytes(bytes@));
    }
    if numeric {
        // This is numeric so escape it
        Cow::Owned(delimit(s, l, r, e))
    } else {
        // No need to escape the value
        Cow::Borrowed(s)
    }
}

} // verus!
