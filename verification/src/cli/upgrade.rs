//! Which installed packages an upgrade replaces, and what it records.
use vstd::prelude::*;
use crate::state::packages::{copy_opt, PackageRow};
use crate::state::transactions::PackageChange;
use crate::text::{push_str, str_eq, to_string};

verus! {

/// Of the first `k` rows, those the user asked for, in order.
pub open spec fn requested_only(rows: Seq<PackageRow>, k: int) -> Seq<PackageRow>
    decreases k,
{
    if k <= 0 {
        seq![]
    } else if rows[k - 1].requested {
        requested_only(rows, k - 1).push(rows[k - 1])
    } else {
        requested_only(rows, k - 1)
    }
}

/// The rows that the user asked for: what `upgrade` without names upgrades.
pub fn requested_rows(rows: &Vec<PackageRow>) -> (r: Vec<PackageRow>)
    ensures
        r@ == requested_only(rows@, rows@.len() as int),
{
    let mut r: Vec<PackageRow> = Vec::new();
    let mut i: usize = 0;
    while i < rows.len()
        invariant
            i <= rows@.len(),
            r@ == requested_only(rows@, i as int),
        decreases rows.len() - i,
    {
        if rows[i].requested {
            r.push(rows[i].clone());
        }
        i = i + 1;
    }
    r
}

/// Of the first `k` checked pairs (installed row, latest version), those
/// whose latest version differs from the installed one, in order.
pub open spec fn stale(checked: Seq<(PackageRow, String)>, k: int) -> Seq<(PackageRow, Seq<char>)>
    decreases k,
{
    if k <= 0 {
        seq![]
    } else if checked[k - 1].1@ != checked[k - 1].0.version@ {
        stale(checked, k - 1).push((checked[k - 1].0, checked[k - 1].1@))
    } else {
        stale(checked, k - 1)
    }
}

/// The pairs, each with its version as characters.
pub open spec fn pair_views(ps: Seq<(PackageRow, String)>) -> Seq<(PackageRow, Seq<char>)> {
    ps.map_values(|p: (PackageRow, String)| (p.0, p.1@))
}

/// The packages to upgrade: each checked row whose latest version differs,
/// with that version.
pub fn upgrade_targets(checked: &Vec<(PackageRow, String)>) -> (r: Vec<(PackageRow, String)>)
    ensures
        pair_views(r@) == stale(checked@, checked@.len() as int),
{
    let mut r: Vec<(PackageRow, String)> = Vec::new();
    let mut i: usize = 0;
    while i < checked.len()
        invariant
            i <= checked@.len(),
            pair_views(r@) == stale(checked@, i as int),
        decreases checked.len() - i,
    {
        let (row, latest) = &checked[i];
        if !str_eq(latest.as_str(), row.version.as_str()) {
            let ghost before = r@;
            r.push((row.clone(), to_string(latest.as_str())));
            assert(pair_views(r@) =~= pair_views(before).push((*row, latest@)));
        }
        i = i + 1;
    }
    r
}

/// The row of a package after its upgrade to `new_version` at time `now`:
/// the old version is kept as the rollback target.
pub fn upgraded_row(old: &PackageRow, new_version: &str, now: i64) -> (r: PackageRow)
    ensures
        r.name == old.name,
        r.version@ == new_version@,
        r.installed_at == now,
        r.requested == old.requested,
        r.previous_ver == Some(old.version),
{
    PackageRow {
        name: old.name.clone(),
        version: to_string(new_version),
        installed_at: now,
        requested: old.requested,
        previous_ver: Some(old.version.clone()),
    }
}

/// The logged change of upgrading `old` to `new_version`.
pub fn upgrade_change(old: &PackageRow, new_version: &str) -> (c: PackageChange)
    ensures
        c.name == old.name,
        c.from_version == Some(old.version),
        c.to_version matches Some(t) && t@ == new_version@,
        c.requested == old.requested,
{
    PackageChange {
        name: old.name.clone(),
        from_version: Some(old.version.clone()),
        to_version: Some(to_string(new_version)),
        requested: old.requested,
    }
}

/// The plan line for one upgrade: `  name old → new`.
pub fn upgrade_line(row: &PackageRow, new_version: &str) -> (r: String)
    ensures
        r@ == "  "@ + row.name@ + " "@ + row.version@ + " → "@ + new_version@,
{
    let mut s = to_string("  ");
    push_str(&mut s, row.name.as_str());
    push_str(&mut s, " ");
    push_str(&mut s, row.version.as_str());
    push_str(&mut s, " → ");
    push_str(&mut s, new_version);
    s
}

/// The row that re-adding a package stores: the new row, with the
/// requested flag and the rollback target it had before.
pub fn readded_row(new_row: &PackageRow, was_requested: bool, saved_previous: &Option<String>) -> (r: PackageRow)
    ensures
        r.name == new_row.name,
        r.version == new_row.version,
        r.installed_at == new_row.installed_at,
        r.requested == was_requested,
        r.previous_ver == *saved_previous,
{
    PackageRow {
        name: new_row.name.clone(),
        version: new_row.version.clone(),
        installed_at: new_row.installed_at,
        requested: was_requested,
        previous_ver: copy_opt(saved_previous),
    }
}

} // verus!
