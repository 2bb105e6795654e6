//! The character classes that decide whether a token may stand bare, over
//! characters and over the bytes of their UTF-8 encoding.

use vstd::prelude::*;
use vstd::utf8::*;

verus! {

/// An ASCII digit.
pub open spec fn is_digit_char(c: char) -> bool {
    '0' <= c && c <= '9'
}

/// A character that may stand in a bare token: an ASCII letter, an ASCII
/// digit or the underscore.
pub open spec fn is_word_char(c: char) -> bool {
    is_digit_char(c) || ('A' <= c && c <= 'Z') || ('a' <= c && c <= 'z') || c == '_'
}

/// Every character of `s` may stand in a bare token.
pub open spec fn all_word(s: Seq<char>) -> bool {
    forall|i: int| 0 <= i < s.len() ==> is_word_char(#[trigger] s[i])
}

/// Every character of `s` is an ASCII digit. The empty sequence counts.
pub open spec fn all_digits(s: Seq<char>) -> bool {
    forall|i: int| 0 <= i < s.len() ==> is_digit_char(#[trigger] s[i])
}

/// The byte of an ASCII digit.
pub open spec fn is_digit_byte(b: u8) -> bool {
    0x30 <= b && b <= 0x39
}

/// The byte of a character that may stand in a bare token.
pub open spec fn is_word_byte(b: u8) -> bool {
    is_digit_byte(b) || (0x41 <= b && b <= 0x5a) || (0x61 <= b && b <= 0x7a) || b == 0x5f
}

/// Every byte of `bytes` is the byte of a word character.
pub open spec fn all_word_bytes(bytes: Seq<u8>) -> bool {
    forall|i: int| 0 <= i < bytes.len() ==> is_word_byte(#[trigger] bytes[i])
}

/// Every byte of `bytes` is the byte of an ASCII digit.
pub open spec fn all_digit_bytes(bytes: Seq<u8>) -> bool {
    forall|i: int| 0 <= i < bytes.len() ==> is_digit_byte(#[trigger] bytes[i])
}

/// The first byte of a character's encoding is a word byte only if the
/// character is a word character, and then it is the whole encoding.
proof fn lemma_first_byte(c: char)
    ensures
        is_word_byte(encode_scalar(c as u32)[0]) ==> is_word_char(c) && encode_scalar(c as u32).len()
            == 1,
{
    let v = c as u32;
    char_is_scalar(c);
    if has_width_1_encoding(v) {
        assert(leading_byte_width_1(v) == v as u8) by (bit_vector)
            requires
                has_width_1_encoding(v),
        ;
    } else if has_width_2_encoding(v) {
        assert(leading_byte_width_2(v) >= 0xc0) by (bit_vector);
    } else if has_width_3_encoding(v) {
        assert(leading_byte_width_3(v) >= 0xe0) by (bit_vector);
    } else {
        assert(leading_byte_width_4(v) >= 0xf0) by (bit_vector);
    }
}

/// A text is made of word characters exactly when its UTF-8 encoding is made
/// of word bytes. Such a text is encoded one byte to the character.
pub proof fn lemma_word_bytes(s: Seq<char>)
    ensures
        all_word_bytes(encode_utf8(s)) <==> all_word(s),
        all_word(s) ==> encode_utf8(s).len() == s.len(),
        all_word(s) ==> forall|i: int| 0 <= i < s.len() ==> encode_utf8(s)[i] == #[trigger] s[i] as u8,
    decreases s.len(),
{
    let bytes = encode_utf8(s);
    if all_word(s) {
        assert(is_ascii_chars(s));
        is_ascii_chars_encode_utf8(s);
        assert forall|i: int| 0 <= i < bytes.len() implies is_word_byte(#[trigger] bytes[i]) by {
            assert(is_word_char(s[i]));
        }
    }
    if all_word_bytes(bytes) && s.len() > 0 {
        let head = encode_scalar(s[0] as u32);
        let tail = s.drop_first();
        assert(bytes == head + encode_utf8(tail));
        char_is_scalar(s[0]);
        assert(head.len() >= 1);
        assert(bytes[0] == head[0]);
        lemma_first_byte(s[0]);
        assert forall|i: int| 0 <= i < encode_utf8(tail).len() implies is_word_byte(
            #[trigger] encode_utf8(tail)[i],
        ) by {
            assert(encode_utf8(tail)[i] == bytes[i + 1]);
        }
        lemma_word_bytes(tail);
        assert forall|i: int| 0 <= i < s.len() implies is_word_char(#[trigger] s[i]) by {
            if i > 0 {
                assert(s[i] == tail[i - 1]);
            }
        }
    }
}

/// In a text of word characters, the digits are the characters whose bytes
/// are digit bytes.
pub proof fn lemma_digit_bytes(s: Seq<char>)
    requires
        all_word(s),
    ensures
        all_digit_bytes(encode_utf8(s)) <==> all_digits(s),
{
    lemma_word_bytes(s);
    let bytes = encode_utf8(s);
    if all_digit_bytes(bytes) {
        assert forall|i: int| 0 <= i < s.len() implies is_digit_char(#[trigger] s[i]) by {
            assert(is_word_char(s[i]));
            assert(is_digit_byte(bytes[i]));
        }
    }
    if all_digits(s) {
        assert forall|i: int| 0 <= i < bytes.len() implies is_digit_byte(#[trigger] bytes[i]) by {
            assert(is_digit_char(s[i]));
        }
    }
}

} // verus!
