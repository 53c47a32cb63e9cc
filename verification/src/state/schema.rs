//! Which schema migrations a database still needs.
use vstd::prelude::*;

verus! {

/// The first migration a database at `current` still lacks: migration `i`
/// brings the schema to version `i + 1`.
pub open spec fn first_pending(current: i64, count: nat) -> int {
    if current < 0 {
        0
    } else if current > count {
        count as int
    } else {
        current as int
    }
}

/// The migrations to run, in order, on a database whose schema version is
/// `current`, out of `count`.
pub fn pending_migrations(current: i64, count: usize) -> (r: Vec<usize>)
    ensures
        r@.len() == count - first_pending(current, count as nat),
        forall|k: int| 0 <= k < r@.len() ==> r@[k] == first_pending(current, count as nat) + k,
{
    let start: usize = if current < 0 {
        0
    } else if current as u64 > count as u64 {
        count
    } else {
        current as usize
    };
    let mut r: Vec<usize> = Vec::new();
    let mut i = start;
    while i < count
        invariant
            start <= i <= count,
            start == first_pending(current, count as nat),
            r@.len() == i - start,
            forall|k: int| 0 <= k < r@.len() ==> r@[k] == start + k,
        decreases count - i,
    {
        r.push(i);
        i = i + 1;
    }
    r
}

/// The schema version to record after migrating, if it rises.
pub fn version_after(current: i64, count: usize) -> (r: Option<i64>)
    requires
        count <= i64::MAX,
    ensures
        count > current ==> r == Some(count as i64),
        count <= current ==> r is None,
{
    let target = count as i64;
    if target > current {
        Some(target)
    } else {
        None
    }
}

} // verus!
