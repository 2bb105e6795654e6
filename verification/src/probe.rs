//! The recognizers of richer literals that an older revision of the grammar
//! tries before it reads a quoted string as a string.
//!
//! A recognizer is any function from text to `bool`. The renderer asks it
//! about the text it has just quoted; what it may answer is what the
//! function's own contract allows.

use vstd::prelude::*;

verus! {

/// `probe` can be asked about `text`.
pub open spec fn accepts<F: Fn(&str) -> bool>(probe: F, text: Seq<char>) -> bool {
    forall|t: &str| t@ == text ==> call_requires(probe, (t,))
}

/// `probe`, asked about `text`, may answer `hit`.
pub open spec fn answers<F: Fn(&str) -> bool>(probe: F, text: Seq<char>, hit: bool) -> bool {
    exists|t: &str| t@ == text && call_ensures(probe, (t,), hit)
}

/// Asked about `text` one after the other, each only if those before it
/// have passed, one of the three recognizers may take it.
pub open spec fn may_take<U: Fn(&str) -> bool, D: Fn(&str) -> bool, R: Fn(&str) -> bool>(
    uuid: U,
    datetime: D,
    record_id: R,
    text: Seq<char>,
) -> bool {
    ||| answers(uuid, text, true)
    ||| answers(uuid, text, false) && answers(datetime, text, true)
    ||| answers(uuid, text, false) && answers(datetime, text, false) && answers(
        record_id,
        text,
        true,
    )
}

/// Asked about `text` one after the other, all three recognizers may pass.
pub open spec fn may_pass<U: Fn(&str) -> bool, D: Fn(&str) -> bool, R: Fn(&str) -> bool>(
    uuid: U,
    datetime: D,
    record_id: R,
    text: Seq<char>,
) -> bool {
    answers(uuid, text, false) && answers(datetime, text, false) && answers(record_id, text, false)
}

} // verus!
