//! The few places where the library leans on code it does not verify: each
//! item's contract states what the called function's documentation promises,
//! and nothing more.

use vstd::prelude::*;
use vstd::utf8::{valid_utf8, decode_utf8};

verus! {

/// Relies on str's `PartialEq`: two string slices are equal exactly when
/// their characters are.
#[verifier::external_body]
pub fn str_eq(a: &str, b: &str) -> (r: bool)
    ensures
        r == (a@ == b@),
{
    a == b
}

/// Relies on str::starts_with: true exactly when the pattern's characters
/// are a prefix of the string's. (It compares byte prefixes; since UTF-8 is
/// self-synchronizing, a byte prefix that is itself one string's whole UTF-8
/// encoding is the same thing as a character prefix.)
#[verifier::external_body]
pub fn str_starts_with(s: &str, prefix: &str) -> (r: bool)
    ensures
        r == (s@.len() >= prefix@.len() && s@.subrange(0, prefix@.len() as int) == prefix@),
{
    s.starts_with(prefix)
}

/// Relies on String::from_utf8: it succeeds exactly on valid UTF-8 input and
/// returns its decoding (vstd's `valid_utf8` and `decode_utf8` define both).
#[verifier::external_body]
pub fn string_from_utf8(bytes: Vec<u8>) -> (r: Option<String>)
    ensures
        match r {
            Some(s) => valid_utf8(bytes@) && s@ == decode_utf8(bytes@),
            None => !valid_utf8(bytes@),
        },
{
    String::from_utf8(bytes).ok()
}

/// Whether serde_json::from_str accepts a string as a JSON document. The
/// parse reads the characters alone, so acceptance is a function of them.
pub uninterp spec fn is_json_text(s: Seq<char>) -> bool;

/// Relies on serde_json::from_str::<serde_json::Value>: it accepts a string
/// exactly when the string is one well-formed JSON document.
#[verifier::external_body]
pub fn json_text_is_valid(s: &str) -> (r: bool)
    ensures
        r == is_json_text(s@),
{
    serde_json::from_str::<serde_json::Value>(s).is_ok()
}

} // verus!
