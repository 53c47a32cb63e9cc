//! How the list of installed packages reads.
use vstd::prelude::*;
use crate::state::packages::PackageRow;
use crate::text::{pad_right, push_padded, push_str, to_string};

verus! {

/// The marker of a package the user asked for, a blank otherwise.
pub open spec fn marker(requested: bool) -> Seq<char> {
    if requested { "●"@ } else { " "@ }
}

/// The line for one installed package: marker, name in 24 columns, version.
pub fn list_line(row: &PackageRow) -> (r: String)
    ensures
        r@ == "  "@ + marker(row.requested) + "  "@ + pad_right(row.name@, 24) + " "@ + row.version@,
{
    let mut s = to_string("  ");
    if row.requested {
        push_str(&mut s, "●");
    } else {
        push_str(&mut s, " ");
    }
    push_str(&mut s, "  ");
    push_padded(&mut s, row.name.as_str(), 24);
    push_str(&mut s, " ");
    push_str(&mut s, row.version.as_str());
    s
}

} // verus!
