//! Finding packages that nothing requested and nothing needs.
use vstd::prelude::*;
use crate::resolver::views;
use crate::state::packages::PackageRow;
use crate::text::{str_eq, to_string};

verus! {

/// `n` is the name of a requested row `i`, or one of the dependencies
/// `deps[i]` listed for it.
pub open spec fn needed(rows: Seq<PackageRow>, deps: Seq<Seq<Seq<char>>>, n: Seq<char>) -> bool {
    exists|i: int| 0 <= i < rows.len() && rows[i].requested && (rows[i].name@ == n || deps[i].contains(n))
}

/// The names of the first `k` rows that were not requested and are not
/// needed, in the order of the rows.
pub open spec fn orphans(rows: Seq<PackageRow>, deps: Seq<Seq<Seq<char>>>, k: int) -> Seq<Seq<char>>
    decreases k,
{
    if k <= 0 {
        seq![]
    } else if !rows[k - 1].requested && !needed(rows, deps, rows[k - 1].name@) {
        orphans(rows, deps, k - 1).push(rows[k - 1].name@)
    } else {
        orphans(rows, deps, k - 1)
    }
}

/// Every orphan is the name of a row that was not requested and that no
/// requested row needs; so no requested name is ever an orphan.
pub proof fn lemma_orphans_unneeded(rows: Seq<PackageRow>, deps: Seq<Seq<Seq<char>>>, k: int, n: Seq<char>)
    requires
        0 <= k <= rows.len(),
        orphans(rows, deps, k).contains(n),
    ensures
        exists|i: int| 0 <= i < k && !rows[i].requested && rows[i].name@ == n,
        !needed(rows, deps, n),
        forall|i: int| 0 <= i < rows.len() && rows[i].requested ==> rows[i].name@ != n,
    decreases k,
{
    let o = orphans(rows, deps, k - 1);
    if !rows[k - 1].requested && !needed(rows, deps, rows[k - 1].name@) {
        if o.contains(n) {
            lemma_orphans_unneeded(rows, deps, k - 1, n);
        } else {
            let p = o.push(rows[k - 1].name@);
            let j = choose|j: int| 0 <= j < p.len() && #[trigger] p[j] == n;
            if j < o.len() {
                assert(o[j] == n);
            }
            assert(rows[k - 1].name@ == n);
        }
    } else {
        lemma_orphans_unneeded(rows, deps, k - 1, n);
    }
}

/// A name that a requested row's dependency list holds is never an orphan,
/// and neither is the name of a requested row.
pub proof fn lemma_dependencies_kept(rows: Seq<PackageRow>, deps: Seq<Seq<Seq<char>>>, i: int, j: int)
    requires
        0 <= i < rows.len(),
        rows[i].requested,
    ensures
        0 <= j < deps[i].len() ==> !orphans(rows, deps, rows.len() as int).contains(deps[i][j]),
        !orphans(rows, deps, rows.len() as int).contains(rows[i].name@),
{
    if 0 <= j < deps[i].len() && orphans(rows, deps, rows.len() as int).contains(deps[i][j]) {
        lemma_orphans_unneeded(rows, deps, rows.len() as int, deps[i][j]);
        assert(deps[i].contains(deps[i][j]));
        assert(needed(rows, deps, deps[i][j]));
    }
    if orphans(rows, deps, rows.len() as int).contains(rows[i].name@) {
        lemma_orphans_unneeded(rows, deps, rows.len() as int, rows[i].name@);
    }
}

/// The dependency lists `lists` are answers of `deps_of` to the names of the
/// requested rows, and `out` lists the orphans that they leave.
pub open spec fn orphans_given<F: Fn(&str) -> Vec<String>>(
    rows: Seq<PackageRow>,
    deps_of: F,
    args: Seq<&str>,
    lists: Seq<Vec<String>>,
    out: Seq<String>,
) -> bool {
    &&& args.len() == rows.len()
    &&& lists.len() == rows.len()
    &&& forall|i: int| #![trigger rows[i]] 0 <= i < rows.len() && rows[i].requested ==>
        args[i]@ == rows[i].name@ && call_ensures(deps_of, (args[i],), lists[i])
    &&& views(out) == orphans(rows, Seq::new(rows.len(), |i: int| views(lists[i]@)), rows.len() as int)
    &&& forall|i: int, j: int| 0 <= i < rows.len() && rows[i].requested && 0 <= j < lists[i]@.len()
        ==> !views(out).contains(#[trigger] lists[i]@[j]@)
    &&& forall|i: int| 0 <= i < rows.len() && #[trigger] rows[i].requested ==> !views(out).contains(rows[i].name@)
}

/// The packages that nobody asked for and that no requested package
/// depends on, in the order of `rows`; `deps_of` lists the dependencies of a
/// requested package and is asked once for each.
pub fn classify_orphans<F: Fn(&str) -> Vec<String>>(rows: &[PackageRow], deps_of: &F) -> (r: Vec<String>)
    requires
        forall|s: &str| call_requires(*deps_of, (s,)),
    ensures
        exists|args: Seq<&str>, lists: Seq<Vec<String>>| #[trigger] orphans_given(rows@, *deps_of, args, lists, r@),
{
    let mut deps: Vec<Vec<String>> = Vec::new();
    let ghost mut args: Seq<&str> = Seq::empty();
    let mut i: usize = 0;
    while i < rows.len()
        invariant
            i <= rows@.len(),
            deps@.len() == i,
            args.len() == i,
            forall|s: &str| call_requires(*deps_of, (s,)),
            forall|k: int| #![trigger rows@[k]] 0 <= k < i && rows@[k].requested ==>
                args[k]@ == rows@[k].name@ && call_ensures(*deps_of, (args[k],), deps@[k]),
        decreases rows.len() - i,
    {
        let s = rows[i].name.as_str();
        let ghost before = deps@;
        if rows[i].requested {
            let v = deps_of(s);
            deps.push(v);
            assert(call_ensures(*deps_of, (s,), deps@[i as int]));
        } else {
            deps.push(Vec::new());
        }
        proof {
            args = args.push(s);
            assert forall|q: int| #![trigger rows@[q]] 0 <= q < i + 1 && rows@[q].requested implies
                args[q]@ == rows@[q].name@ && call_ensures(*deps_of, (args[q],), deps@[q]) by {
                if q < i {
                    assert(deps@[q] == before[q]);
                }
            }
        }
        i = i + 1;
    }
    let ghost dv = Seq::new(rows@.len(), |q: int| views(deps@[q]@));
    let mut out: Vec<String> = Vec::new();
    let mut k: usize = 0;
    while k < rows.len()
        invariant
            k <= rows@.len(),
            deps@.len() == rows@.len(),
            dv == Seq::new(rows@.len(), |q: int| views(deps@[q]@)),
            views(out@) == orphans(rows@, dv, k as int),
        decreases rows.len() - k,
    {
        if !rows[k].requested {
            let need = is_needed(rows, &deps, k, Ghost(dv));
            if !need {
                let ghost before = views(out@);
                out.push(to_string(rows[k].name.as_str()));
                assert(views(out@) == before.push(rows@[k as int].name@));
            }
        }
        k = k + 1;
    }
    proof {
        assert forall|i: int, j: int| 0 <= i < rows@.len() && rows@[i].requested && 0 <= j < deps@[i]@.len()
            implies !views(out@).contains(#[trigger] deps@[i]@[j]@) by {
            assert(dv[i] == views(deps@[i]@));
            assert(dv[i][j] == deps@[i]@[j]@);
            lemma_dependencies_kept(rows@, dv, i, j);
        }
        assert forall|i: int| 0 <= i < rows@.len() && #[trigger] rows@[i].requested implies !views(out@).contains(rows@[i].name@) by {
            lemma_dependencies_kept(rows@, dv, i, 0);
        }
        assert(dv == Seq::new(rows@.len(), |i: int| views(deps@[i]@)));
    }
    assert(orphans_given(rows@, *deps_of, args, deps@, out@));
    out
}

/// Whether the name of row `k` is needed, given the dependency lists `deps`.
fn is_needed(rows: &[PackageRow], deps: &Vec<Vec<String>>, k: usize, Ghost(dv): Ghost<Seq<Seq<Seq<char>>>>) -> (need: bool)
    requires
        k < rows@.len(),
        deps@.len() == rows@.len(),
        dv == Seq::new(rows@.len(), |q: int| views(deps@[q]@)),
    ensures
        need == needed(rows@, dv, rows@[k as int].name@),
{
    let ghost name = rows@[k as int].name@;
    let mut j: usize = 0;
    while j < rows.len()
        invariant
            j <= rows@.len(),
            k < rows@.len(),
            name == rows@[k as int].name@,
            deps@.len() == rows@.len(),
            dv == Seq::new(rows@.len(), |q: int| views(deps@[q]@)),
            forall|q: int| 0 <= q < j ==> !(#[trigger] rows@[q].requested && (rows@[q].name@ == name || dv[q].contains(name))),
        decreases rows.len() - j,
    {
        if rows[j].requested {
            if str_eq(rows[j].name.as_str(), rows[k].name.as_str()) {
                assert(rows@[j as int].requested && rows@[j as int].name@ == name);
                return true;
            }
            if list_contains(&deps[j], rows[k].name.as_str()) {
                assert(rows@[j as int].requested && dv[j as int].contains(name));
                return true;
            }
            assert(dv[j as int] == views(deps@[j as int]@));
        }
        j = j + 1;
    }
    false
}

/// Whether one of the strings in `list` equals `name`.
pub fn list_contains(list: &Vec<String>, name: &str) -> (r: bool)
    ensures
        r == views(list@).contains(name@),
{
    let mut m: usize = 0;
    while m < list.len()
        invariant
            m <= list@.len(),
            forall|t: int| 0 <= t < m ==> list@[t]@ != name@,
        decreases list.len() - m,
    {
        if str_eq(list[m].as_str(), name) {
            assert(views(list@)[m as int] == name@);
            return true;
        }
        m = m + 1;
    }
    assert forall|t: int| 0 <= t < views(list@).len() implies views(list@)[t] != name@ by {
        assert(views(list@)[t] == list@[t]@);
    }
    false
}

} // verus!
