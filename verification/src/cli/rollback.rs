//! Undoing the last transaction.
use vstd::prelude::*;
use crate::error::OlmaError;
use crate::state::transactions::{opt_view, PackageChange};
use crate::resolver::views;
use crate::text::{push_i64, push_str, str_eq, to_string, int_string};

verus! {

/// What undoing a transaction runs.
#[derive(Debug)]
pub enum RollbackStep {
    /// Remove these packages (the transaction added them).
    Remove(Vec<String>),
    /// Add these packages again (the transaction removed them).
    Add(Vec<String>),
}

/// The names of the changed packages, in order.
pub open spec fn change_names(changes: Seq<PackageChange>) -> Seq<Seq<char>> {
    changes.map_values(|c: PackageChange| c.name@)
}

/// The names of the changed packages.
pub fn names_of(changes: &Vec<PackageChange>) -> (r: Vec<String>)
    ensures
        views(r@) == change_names(changes@),
{
    let mut r: Vec<String> = Vec::new();
    let mut i: usize = 0;
    while i < changes.len()
        invariant
            i <= changes@.len(),
            views(r@) == change_names(changes@.take(i as int)),
        decreases changes.len() - i,
    {
        let ghost before = r@;
        r.push(to_string(changes[i].name.as_str()));
        assert(views(r@) =~= views(before).push(changes@[i as int].name@));
        assert(changes@.take(i + 1) == changes@.take(i as int).push(changes@[i as int]));
        assert(change_names(changes@.take(i + 1)) =~= change_names(changes@.take(i as int)).push(changes@[i as int].name@));
        i = i + 1;
    }
    assert(changes@.take(changes@.len() as int) == changes@);
    r
}

/// The message for a kind of transaction that cannot be undone.
pub open spec fn unsupported_message(kind: Seq<char>) -> Seq<char> {
    "rollback for "@ + kind + " not implemented yet"@
}

/// How to undo a transaction of `kind` that made `changes`: an `add` is
/// undone by removing its packages, a `remove` by adding them again.
pub fn rollback_step(kind: &str, changes: &Vec<PackageChange>) -> (r: Result<RollbackStep, OlmaError>)
    ensures
        kind@ == "add"@ ==> (r matches Ok(RollbackStep::Remove(ns)) && views(ns@) == change_names(changes@)),
        kind@ == "remove"@ ==> (r matches Ok(RollbackStep::Add(ns)) && views(ns@) == change_names(changes@)),
        kind@ != "add"@ && kind@ != "remove"@ ==>
            (r matches Err(OlmaError::Other(m)) && m@ == unsupported_message(kind@)),
{
    proof {
        reveal_strlit("add");
        reveal_strlit("remove");
        assert("add"@.len() != "remove"@.len());
    }
    if str_eq(kind, "add") {
        Ok(RollbackStep::Remove(names_of(changes)))
    } else if str_eq(kind, "remove") {
        Ok(RollbackStep::Add(names_of(changes)))
    } else {
        let mut m = to_string("rollback for ");
        push_str(&mut m, kind);
        push_str(&mut m, " not implemented yet");
        Err(OlmaError::Other(m))
    }
}

/// How the rollback announces the undoing of one change, if at all.
pub open spec fn rollback_text(name: Seq<char>, from: Option<Seq<char>>, to: Option<Seq<char>>) -> Option<Seq<char>> {
    match (from, to) {
        (None, Some(t)) => Some("  remove "@ + name + " "@ + t),
        (Some(f), None) => Some("  reinstall "@ + name + " "@ + f),
        (Some(f), Some(t)) => Some("  revert "@ + name + " "@ + t + "→"@ + f),
        (None, None) => None,
    }
}

/// The line announcing the undoing of `c`.
pub fn rollback_line(c: &PackageChange) -> (r: Option<String>)
    ensures
        (match r {
            Some(s) => Some(s@),
            None => None,
        }) == rollback_text(c.name@, opt_view(c.from_version), opt_view(c.to_version)),
{
    match (&c.from_version, &c.to_version) {
        (None, Some(to)) => {
            let mut s = to_string("  remove ");
            push_str(&mut s, c.name.as_str());
            push_str(&mut s, " ");
            push_str(&mut s, to.as_str());
            Some(s)
        },
        (Some(from), None) => {
            let mut s = to_string("  reinstall ");
            push_str(&mut s, c.name.as_str());
            push_str(&mut s, " ");
            push_str(&mut s, from.as_str());
            Some(s)
        },
        (Some(from), Some(to)) => {
            let mut s = to_string("  revert ");
            push_str(&mut s, c.name.as_str());
            push_str(&mut s, " ");
            push_str(&mut s, to.as_str());
            push_str(&mut s, "→");
            push_str(&mut s, from.as_str());
            Some(s)
        },
        (None, None) => None,
    }
}

/// The status line that opens a rollback.
pub fn rollback_header(id: i64, kind: &str) -> (r: String)
    ensures
        r@ == "Reverting transaction #"@ + int_string(id as int) + " ("@ + kind@ + ")"@,
{
    let mut s = to_string("Reverting transaction #");
    push_i64(&mut s, id);
    push_str(&mut s, " (");
    push_str(&mut s, kind);
    push_str(&mut s, ")");
    s
}

} // verus!
