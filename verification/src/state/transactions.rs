//! The transaction log: what each command changed, and how a change reads.
use vstd::prelude::*;

verus! {

/// One logged transaction; `payload` holds its changes, encoded.
#[derive(Debug)]
pub struct TransactionRow {
    pub id: i64,
    pub ts: i64,
    pub kind: String,
    pub payload: String,
    pub reverted: bool,
}

/// What a transaction did to one package.
#[derive(Debug)]
pub struct PackageChange {
    pub name: String,
    pub from_version: Option<String>,
    pub to_version: Option<String>,
    pub requested: bool,
}

/// The view of an optional string.
pub open spec fn opt_view(o: Option<String>) -> Option<Seq<char>> {
    match o {
        Some(s) => Some(s@),
        None => None,
    }
}

/// How the history lists a change: `name to` for an install, `name from→to`
/// for an upgrade, `name- from` for a removal, the bare name otherwise.
pub open spec fn change_text(name: Seq<char>, from: Option<Seq<char>>, to: Option<Seq<char>>) -> Seq<char> {
    match (from, to) {
        (None, Some(t)) => name + " "@ + t,
        (Some(f), Some(t)) => name + " "@ + f + "→"@ + t,
        (Some(f), None) => name + "- "@ + f,
        (None, None) => name,
    }
}

} // verus!
