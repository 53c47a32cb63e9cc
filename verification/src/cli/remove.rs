//! What removing a package records and shows.
use vstd::prelude::*;
use crate::state::packages::PackageRow;
use crate::state::transactions::PackageChange;
use crate::text::{dec_string, push_str, push_u64, to_string};

verus! {

/// The logged change of removing `row`.
pub fn removal_change(row: &PackageRow) -> (c: PackageChange)
    ensures
        c.name == row.name,
        c.from_version == Some(row.version),
        c.to_version is None,
        c.requested == row.requested,
{
    PackageChange {
        name: row.name.clone(),
        from_version: Some(row.version.clone()),
        to_version: None,
        requested: row.requested,
    }
}

/// The line that lists a package: `  name version`.
pub fn row_line(row: &PackageRow) -> (r: String)
    ensures
        r@ == "  "@ + row.name@ + " "@ + row.version@,
{
    let mut s = to_string("  ");
    push_str(&mut s, row.name.as_str());
    push_str(&mut s, " ");
    push_str(&mut s, row.version.as_str());
    s
}

/// `prefix`, the count, then `suffix`: `Will remove 3 packages:` and the like.
pub fn count_message(prefix: &str, n: usize, suffix: &str) -> (r: String)
    ensures
        r@ == prefix@ + dec_string(n as nat) + suffix@,
{
    let mut s = to_string(prefix);
    push_u64(&mut s, n as u64);
    push_str(&mut s, suffix);
    s
}

} // verus!
