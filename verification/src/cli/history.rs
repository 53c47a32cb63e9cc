//! How the transaction history reads.
use vstd::prelude::*;
use crate::pipeline::joined;
use crate::state::transactions::{change_text, opt_view, PackageChange, TransactionRow};
use crate::text::{int_string, pad_right, push_i64, push_padded, push_str, to_string};

verus! {

/// The history's text for one change.
pub fn describe_change(c: &PackageChange) -> (r: String)
    ensures
        r@ == change_text(c.name@, opt_view(c.from_version), opt_view(c.to_version)),
{
    let mut r = to_string(c.name.as_str());
    match (&c.from_version, &c.to_version) {
        (None, Some(to)) => {
            push_str(&mut r, " ");
            push_str(&mut r, to.as_str());
        },
        (Some(from), Some(to)) => {
            push_str(&mut r, " ");
            push_str(&mut r, from.as_str());
            push_str(&mut r, "→");
            push_str(&mut r, to.as_str());
        },
        (Some(from), None) => {
            push_str(&mut r, "- ");
            push_str(&mut r, from.as_str());
        },
        (None, None) => {},
    }
    r
}

/// The texts of `changes`, in order.
pub open spec fn change_texts(changes: Seq<PackageChange>) -> Seq<Seq<char>> {
    changes.map_values(|c: PackageChange| change_text(c.name@, opt_view(c.from_version), opt_view(c.to_version)))
}

/// One line of the history: id, kind, the changes, and a mark if reverted.
pub open spec fn history_line_spec(row: TransactionRow, changes: Seq<PackageChange>) -> Seq<char> {
    "  #"@ + pad_right(int_string(row.id as int), 4) + "  "@ + pad_right(row.kind@, 8) + "  "@
        + joined(change_texts(changes)) + if row.reverted { " (reverted)"@ } else { ""@ }
}

/// The history line of `row`, whose payload decoded to `changes`.
pub fn history_line(row: &TransactionRow, changes: &Vec<PackageChange>) -> (r: String)
    ensures
        r@ == history_line_spec(*row, changes@),
{
    let mut r = to_string("  #");
    let mut id = String::new();
    push_i64(&mut id, row.id);
    push_padded(&mut r, id.as_str(), 4);
    push_str(&mut r, "  ");
    push_padded(&mut r, row.kind.as_str(), 8);
    push_str(&mut r, "  ");
    let mut texts: Vec<String> = Vec::new();
    let mut i: usize = 0;
    while i < changes.len()
        invariant
            i <= changes@.len(),
            texts@.map_values(|s: String| s@) == change_texts(changes@.take(i as int)),
        decreases changes.len() - i,
    {
        let t = describe_change(&changes[i]);
        let ghost before = texts@;
        texts.push(t);
        assert(texts@.map_values(|s: String| s@) =~= before.map_values(|s: String| s@).push(t@));
        assert(changes@.take(i + 1) == changes@.take(i as int).push(changes@[i as int]));
        assert(change_texts(changes@.take(i + 1)) =~= change_texts(changes@.take(i as int)).push(t@));
        i = i + 1;
    }
    assert(changes@.take(changes@.len() as int) == changes@);
    let j = crate::pipeline::join_names(&texts);
    push_str(&mut r, j.as_str());
    if row.reverted {
        push_str(&mut r, " (reverted)");
    } else {
        proof {
            reveal_strlit("");
        }
        assert(r@ + ""@ == r@);
    }
    r
}

} // verus!
