//! Mapping engine for a publish/subscribe-to-time-series bridge.
//!
//! Inbound messages carry a slash-delimited topic and a raw byte payload.
//! A configured rule set decides, per message, which rule applies (topic
//! pattern matching), how the stored field is named (template rendering
//! over wildcard captures), how the payload is turned into a typed scalar
//! (value coercion), and where inside a structured payload the value and
//! an optional timestamp live (path extraction).

use vstd::prelude::*;

pub mod config;
pub mod dispatch;
pub mod interpolate;
pub mod json;
pub mod mapping;
pub mod topic;
pub mod value;

verus! {

/// Compares two string slices character by character.
///
/// `String` equality has a specification in vstd, but plain `&str`
/// comparison does not, so the crate carries its own.
pub fn str_eq(a: &str, b: &str) -> (r: bool)
    ensures
        r == (a@ == b@),
{
    let a_len = a.unicode_len();
    let b_len = b.unicode_len();
    if a_len != b_len {
        assert(a@ != b@) by {
            assert(a@.len() != b@.len());
        }
        return false;
    }
    let mut i: usize = 0;
    while i < a_len
        invariant
            i <= a_len,
            a_len == a@.len(),
            b_len == b@.len(),
            a_len == b_len,
            forall|j: int| 0 <= j < i ==> a@[j] == b@[j],
        decreases a_len - i,
    {
        if a.get_char(i) != b.get_char(i) {
            return false;
        }
        i += 1;
    }
    assert(a@ =~= b@);
    true
}

} // verus!

