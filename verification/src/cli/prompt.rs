//! Reading a yes/no answer.
use vstd::prelude::*;
use crate::metadata::index::{lowercase_spec, to_lowercase};
use crate::text::{str_eq, trim, trim_str};

verus! {

/// An answer agrees when, trimmed and lower-cased, it is empty, `y` or `yes`.
pub open spec fn affirmative(input: Seq<char>) -> bool {
    let t = lowercase_spec(trim(input));
    t.len() == 0 || t == "y"@ || t == "yes"@
}

/// Whether the answer typed at a `[Y/n]` prompt agrees.
pub fn is_affirmative(input: &str) -> (r: bool)
    ensures
        r == affirmative(input@),
{
    let t = trim_str(input);
    let l = to_lowercase(t.as_str());
    l.as_str().unicode_len() == 0 || str_eq(l.as_str(), "y") || str_eq(l.as_str(), "yes")
}

} // verus!
