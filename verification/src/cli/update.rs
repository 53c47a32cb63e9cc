//! How `update` treats failures and what it reports.
use vstd::prelude::*;
use crate::error::OlmaError;
use crate::text::{dec_string, push_str, push_u64, to_string};

verus! {

/// A refresh that failed on the network is skipped; any other failure
/// stops the update.
pub fn skips_refresh_error(e: &OlmaError) -> (r: bool)
    ensures
        r == (*e is Network),
{
    match e {
        OlmaError::Network(_) => true,
        _ => false,
    }
}

/// The status line while refreshing the `k`-th of `total` formulae.
pub fn refresh_status(name: &str, k: usize, total: usize) -> (r: String)
    ensures
        r@ == "Refreshing "@ + name@ + " ("@ + dec_string(k as nat) + "/"@ + dec_string(total as nat) + ")"@,
{
    let mut s = to_string("Refreshing ");
    push_str(&mut s, name);
    push_str(&mut s, " (");
    push_u64(&mut s, k as u64);
    push_str(&mut s, "/");
    push_u64(&mut s, total as u64);
    push_str(&mut s, ")");
    s
}

/// The closing line of an update.
pub fn refresh_summary(refreshed: usize, total: usize, full: bool) -> (r: String)
    ensures
        r@ == "Refreshed "@ + dec_string(refreshed as nat) + "/"@ + dec_string(total as nat)
            + " installed formulae"@ + if full { " + full index"@ } else { ""@ },
{
    let mut s = to_string("Refreshed ");
    push_u64(&mut s, refreshed as u64);
    push_str(&mut s, "/");
    push_u64(&mut s, total as u64);
    push_str(&mut s, " installed formulae");
    if full {
        push_str(&mut s, " + full index");
    } else {
        proof {
            reveal_strlit("");
        }
        assert(s@ + ""@ == s@);
    }
    s
}

} // verus!
