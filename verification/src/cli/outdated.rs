//! Listing the installed packages that have a newer version.
use vstd::prelude::*;
use crate::state::packages::PackageRow;
use crate::text::{pad_right, push_padded, push_str, str_eq, to_string};

verus! {

/// One package whose installed version is not the latest.
#[derive(Debug)]
pub struct OutdatedRow {
    pub name: String,
    pub installed: String,
    pub latest: String,
}

/// Of the first `k` checked pairs (installed row, latest version), the
/// outdated ones as (name, installed, latest), in order.
pub open spec fn outdated_spec(checked: Seq<(PackageRow, String)>, k: int) -> Seq<(Seq<char>, Seq<char>, Seq<char>)>
    decreases k,
{
    if k <= 0 {
        seq![]
    } else if checked[k - 1].1@ != checked[k - 1].0.version@ {
        outdated_spec(checked, k - 1).push((checked[k - 1].0.name@, checked[k - 1].0.version@, checked[k - 1].1@))
    } else {
        outdated_spec(checked, k - 1)
    }
}

/// A row as (name, installed, latest).
pub open spec fn row_view(r: OutdatedRow) -> (Seq<char>, Seq<char>, Seq<char>) {
    (r.name@, r.installed@, r.latest@)
}

/// The outdated packages among `checked`, each installed row paired with the
/// latest version that the metadata gave for it.
pub fn outdated_rows(checked: &Vec<(PackageRow, String)>) -> (r: Vec<OutdatedRow>)
    ensures
        r@.map_values(|o: OutdatedRow| row_view(o)) == outdated_spec(checked@, checked@.len() as int),
{
    let mut r: Vec<OutdatedRow> = Vec::new();
    let mut i: usize = 0;
    while i < checked.len()
        invariant
            i <= checked@.len(),
            r@.map_values(|o: OutdatedRow| row_view(o)) == outdated_spec(checked@, i as int),
        decreases checked.len() - i,
    {
        let (row, latest) = &checked[i];
        if !str_eq(latest.as_str(), row.version.as_str()) {
            let ghost before = r@;
            let o = OutdatedRow {
                name: to_string(row.name.as_str()),
                installed: to_string(row.version.as_str()),
                latest: to_string(latest.as_str()),
            };
            r.push(o);
            assert(r@.map_values(|o: OutdatedRow| row_view(o)) =~= before.map_values(|o: OutdatedRow| row_view(o)).push(
                (row.name@, row.version@, latest@),
            ));
        }
        i = i + 1;
    }
    r
}

/// One line of the table: name in 24 columns, installed version in 14, an
/// arrow, the latest version.
pub fn outdated_line(o: &OutdatedRow) -> (r: String)
    ensures
        r@ == "  "@ + pad_right(o.name@, 24) + " "@ + pad_right(o.installed@, 14) + " → "@ + o.latest@,
{
    let mut s = to_string("  ");
    push_padded(&mut s, o.name.as_str(), 24);
    push_str(&mut s, " ");
    push_padded(&mut s, o.installed.as_str(), 14);
    push_str(&mut s, " → ");
    push_str(&mut s, o.latest.as_str());
    s
}

} // verus!
