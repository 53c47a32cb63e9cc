//! Ages and sizes as `info` and `clean` show them.
use vstd::prelude::*;
use crate::text::{dec_string, push_str, push_u64};

verus! {

/// Seconds from `ts` (clamped at the epoch) to `now`; none if `ts` lies ahead.
pub open spec fn age_secs(ts: i64, now: u64) -> nat {
    let t: int = if ts < 0 { 0 } else { ts as int };
    if now >= t { (now - t) as nat } else { 0 }
}

/// An age in the largest whole unit that fits: seconds, minutes, hours, days.
pub open spec fn age_text(d: nat) -> Seq<char> {
    if d < 60 {
        dec_string(d) + "s ago"@
    } else if d < 3600 {
        dec_string(d / 60) + "m ago"@
    } else if d < 86400 {
        dec_string(d / 3600) + "h ago"@
    } else {
        dec_string(d / 86400) + "d ago"@
    }
}

/// How long ago `ts` (seconds since the epoch) was, seen at `now_secs`.
pub fn fmt_ts(ts: i64, now_secs: u64) -> (r: String)
    ensures
        r@ == age_text(age_secs(ts, now_secs)),
{
    let t: u64 = if ts < 0 { 0 } else { ts as u64 };
    let delta: u64 = if now_secs >= t { now_secs - t } else { 0 };
    let mut s = String::new();
    if delta < 60 {
        push_u64(&mut s, delta);
        push_str(&mut s, "s ago");
    } else if delta < 3600 {
        push_u64(&mut s, delta / 60);
        push_str(&mut s, "m ago");
    } else if delta < 86400 {
        push_u64(&mut s, delta / 3600);
        push_str(&mut s, "h ago");
    } else {
        push_u64(&mut s, delta / 86400);
        push_str(&mut s, "d ago");
    }
    proof {
        reveal_strlit("");
        assert(Seq::<char>::empty() + dec_string(delta as nat) == dec_string(delta as nat));
    }
    s
}

/// The unit a size is shown in: 0 for B, 1 for KB, 2 for MB, 3 for GB,
/// the largest whose size is at most `n`.
pub open spec fn unit_of(n: u64) -> nat {
    if n >= 1073741824 {
        3
    } else if n >= 1048576 {
        2
    } else if n >= 1024 {
        1
    } else {
        0
    }
}

/// The unit for a size of `n` bytes.
pub fn unit_index(n: u64) -> (r: usize)
    ensures
        r == unit_of(n),
{
    if n >= 1073741824 {
        3
    } else if n >= 1048576 {
        2
    } else if n >= 1024 {
        1
    } else {
        0
    }
}

/// The name of unit `u`.
pub open spec fn unit_name_spec(u: nat) -> Seq<char> {
    if u == 0 {
        "B"@
    } else if u == 1 {
        "KB"@
    } else if u == 2 {
        "MB"@
    } else {
        "GB"@
    }
}

/// The name of unit `u`.
pub fn unit_name(u: usize) -> (r: &'static str)
    requires
        u < 4,
    ensures
        r@ == unit_name_spec(u as nat),
{
    if u == 0 {
        "B"
    } else if u == 1 {
        "KB"
    } else if u == 2 {
        "MB"
    } else {
        "GB"
    }
}

} // verus!
