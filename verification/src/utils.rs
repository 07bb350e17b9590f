//! Small predicates on arguments and names.

use vstd::prelude::*;
use crate::text::{chars_of, char_is_white, has_white, is_white};

verus! {

/// A man page in `roff` format.
pub type RoffString = String;

/// `s` begins with a dash `-`.
pub open spec fn dash_first(s: Seq<char>) -> bool {
    s.len() > 0 && s[0] == '-'
}

/// A positional argument does not start with a dash.
pub open spec fn positional(s: Seq<char>) -> bool {
    !dash_first(s)
}

/// Check if a string starts with a dash `-`
pub fn starts_with_dash(s: &str) -> (r: bool)
    ensures
        r == dash_first(s@),
{
    if s.is_empty() {
        false
    } else {
        s.get_char(0) == '-'
    }
}

/// Check if a string contains whitespace
pub fn contains_whitespace(s: &str) -> (r: bool)
    ensures
        r == has_white(s@),
{
    let v = chars_of(s);
    let mut i: usize = 0;
    while i < v.len()
        invariant
            v@ == s@,
            i <= v@.len(),
            forall|j: int| 0 <= j < i ==> !is_white(#[trigger] v@[j]),
        decreases v@.len() - i,
    {
        if char_is_white(v[i]) {
            return true;
        }
        i += 1;
    }
    false
}

/// Check if an argument is a positional argument
///
/// A positional argument is an argument that does not start with a dash
pub fn is_positional(arg: &str) -> (r: bool)
    ensures
        r == positional(arg@),
{
    !starts_with_dash(arg)
}

} // verus!
