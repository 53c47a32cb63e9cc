//! Dependency ordering: which formulae to install, dependencies first.
use vstd::prelude::*;
use vstd::set_lib::*;
use crate::error::OlmaError;
use crate::metadata::Formula;
use crate::text::{str_eq, to_string};

verus! {

/// The names held by a vector of strings.
pub open spec fn views(v: Seq<String>) -> Seq<Seq<char>> {
    v.map_values(|s: String| s@)
}

/// A dependency list: each entry names a formula and the formulae it needs.
pub type DepList = Vec<(String, Vec<String>)>;

/// `u` needs `v` according to some entry of `deps`.
pub open spec fn depends_on(deps: Seq<(String, Vec<String>)>, u: Seq<char>, v: Seq<char>) -> bool {
    exists|k: int, j: int|
        0 <= k < deps.len() && 0 <= j < deps[k].1@.len() && #[trigger] deps[k].0@ == u
            && #[trigger] deps[k].1@[j]@ == v
}

/// `n` is a formula that `deps` mentions, as an entry or as a dependency.
pub open spec fn is_node(deps: Seq<(String, Vec<String>)>, n: Seq<char>) -> bool {
    ||| exists|k: int| 0 <= k < deps.len() && #[trigger] deps[k].0@ == n
    ||| exists|k: int, j: int| 0 <= k < deps.len() && 0 <= j < deps[k].1@.len() && #[trigger] deps[k].1@[j]@ == n
}

/// `order` lists every formula of `deps` once, each after all that it needs.
pub open spec fn is_install_order(deps: Seq<(String, Vec<String>)>, order: Seq<Seq<char>>) -> bool {
    &&& order.no_duplicates()
    &&& forall|n: Seq<char>| is_node(deps, n) <==> order.contains(n)
    &&& forall|i: int, j: int|
        0 <= i < order.len() && 0 <= j < order.len() && depends_on(deps, #[trigger] order[i], #[trigger] order[j]) ==> j < i
}

/// The error returned when no install order exists.
pub open spec fn is_cycle_error(e: OlmaError) -> bool {
    e matches OlmaError::Other(m) && m@ == "dependency cycle detected"@
}

/// Number of edges into `v` whose source is not yet popped.
pub open spec fn pend(edges: Seq<(usize, usize)>, popped: Seq<bool>, v: int) -> nat
    decreases edges.len(),
{
    if edges.len() == 0 {
        0
    } else {
        pend(edges.drop_last(), popped, v) + (if edges.last().1 == v && !popped[edges.last().0 as int] {
            1nat
        } else {
            0nat
        })
    }
}

proof fn lemma_pend_append(a: Seq<(usize, usize)>, b: Seq<(usize, usize)>, popped: Seq<bool>, v: int)
    ensures
        pend(a + b, popped, v) == pend(a, popped, v) + pend(b, popped, v),
    decreases b.len(),
{
    if b.len() == 0 {
        assert(a + b == a);
    } else {
        assert((a + b).drop_last() == a + b.drop_last());
        lemma_pend_append(a, b.drop_last(), popped, v);
    }
}

proof fn lemma_pend_positive(edges: Seq<(usize, usize)>, popped: Seq<bool>, v: int) -> (e: int)
    requires
        pend(edges, popped, v) > 0,
    ensures
        0 <= e < edges.len(),
        edges[e].1 == v,
        !popped[edges[e].0 as int],
    decreases edges.len(),
{
    if edges.last().1 == v && !popped[edges.last().0 as int] {
        (edges.len() - 1) as int
    } else {
        lemma_pend_positive(edges.drop_last(), popped, v)
    }
}

proof fn lemma_pend_zero(edges: Seq<(usize, usize)>, popped: Seq<bool>, v: int, e: int)
    requires
        pend(edges, popped, v) == 0,
        0 <= e < edges.len(),
        edges[e].1 == v,
    ensures
        popped[edges[e].0 as int],
    decreases edges.len(),
{
    if e < edges.len() - 1 {
        lemma_pend_zero(edges.drop_last(), popped, v, e);
    }
}

proof fn lemma_pend_bound(edges: Seq<(usize, usize)>, popped: Seq<bool>, v: int)
    ensures
        pend(edges, popped, v) <= edges.len(),
    decreases edges.len(),
{
    if edges.len() > 0 {
        lemma_pend_bound(edges.drop_last(), popped, v);
    }
}

/// A sequence of distinct indices below `n` has at most `n` elements.
proof fn lemma_distinct_bounded(s: Seq<usize>, n: nat)
    requires
        s.no_duplicates(),
        forall|i: int| 0 <= i < s.len() ==> (s[i] as int) < n,
    ensures
        s.len() <= n,
{
    let t = s.map_values(|x: usize| x as int);
    assert(t.no_duplicates()) by {
        assert forall|i: int, j: int| 0 <= i < t.len() && 0 <= j < t.len() && i != j implies t[i] != t[j] by {
            assert(s[i] != s[j]);
        }
    }
    t.unique_seq_to_set();
    lemma_int_range(0, n as int);
    assert(t.to_set().subset_of(set_int_range(0, n as int))) by {
        assert forall|x: int| t.to_set().contains(x) implies set_int_range(0, n as int).contains(x) by {
            let i = choose|i: int| 0 <= i < t.len() && t[i] == x;
            assert(s[i] < n);
        }
    }
    lemma_len_subset(t.to_set(), set_int_range(0, n as int));
}

/// Position of a name in `nodes`.
fn index_of(nodes: &Vec<String>, name: &String) -> (r: Option<usize>)
    ensures
        r matches Some(i) ==> i < nodes@.len() && nodes@[i as int]@ == name@,
        r is None ==> forall|i: int| 0 <= i < nodes@.len() ==> nodes@[i]@ != name@,
{
    let mut i: usize = 0;
    while i < nodes.len()
        invariant
            i <= nodes@.len(),
            forall|j: int| 0 <= j < i ==> nodes@[j]@ != name@,
        decreases nodes.len() - i,
    {
        if str_eq(nodes[i].as_str(), name.as_str()) {
            return Some(i);
        }
        i = i + 1;
    }
    None
}

/// Appends `name` to `nodes` unless it is already there.
fn add_node(nodes: &mut Vec<String>, name: &String)
    requires
        views(old(nodes)@).no_duplicates(),
    ensures
        views(final(nodes)@).no_duplicates(),
        views(final(nodes)@).contains(name@),
        forall|n: Seq<char>| views(final(nodes)@).contains(n) <==> (views(old(nodes)@).contains(n) || n == name@),
        views(old(nodes)@).is_prefix_of(views(final(nodes)@)),
{
    match index_of(nodes, name) {
        Some(i) => {
            assert(views(nodes@)[i as int] == name@);
        },
        None => {
            let ghost before = views(nodes@);
            nodes.push(to_string(name.as_str()));
            assert(views(nodes@) == before.push(name@));
            assert(views(nodes@)[before.len() as int] == name@);
            assert forall|n: Seq<char>| views(nodes@).contains(n) <==> (before.contains(n) || n == name@) by {
                if before.contains(n) {
                    let i = choose|i: int| 0 <= i < before.len() && before[i] == n;
                    assert(views(nodes@)[i] == n);
                }
            }
        },
    }
}

/// Edge `e` connects entries of `deps` as named by `names`.
pub open spec fn edges_match(
    deps: Seq<(String, Vec<String>)>,
    names: Seq<Seq<char>>,
    edges: Seq<(usize, usize)>,
) -> bool {
    &&& forall|e: int| 0 <= e < edges.len() ==> (#[trigger] edges[e]).0 < names.len() && edges[e].1 < names.len()
    &&& forall|e: int| 0 <= e < edges.len() ==> depends_on(deps, names[(#[trigger] edges[e]).0 as int], names[edges[e].1 as int])
}

/// Some edge leads from the node named `u` to the node named `v`.
pub open spec fn edge_between(names: Seq<Seq<char>>, edges: Seq<(usize, usize)>, u: Seq<char>, v: Seq<char>) -> bool {
    exists|e: int| 0 <= e < edges.len() && names[edges[e].0 as int] == u && names[edges[e].1 as int] == v
}

/// The nodes and edges of the graph that `deps` describes.
fn build_graph(deps: &DepList) -> (r: (Vec<String>, Vec<(usize, usize)>))
    ensures
        views(r.0@).no_duplicates(),
        forall|n: Seq<char>| is_node(deps@, n) <==> views(r.0@).contains(n),
        edges_match(deps@, views(r.0@), r.1@),
        forall|u: Seq<char>, v: Seq<char>| depends_on(deps@, u, v) ==> edge_between(views(r.0@), r.1@, u, v),
{
    let mut nodes: Vec<String> = Vec::new();
    let mut k: usize = 0;
    while k < deps.len()
        invariant
            k <= deps@.len(),
            views(nodes@).no_duplicates(),
            forall|n: Seq<char>| views(nodes@).contains(n) <==> exists|i: int| 0 <= i < k && #[trigger] deps@[i].0@ == n,
        decreases deps.len() - k,
    {
        add_node(&mut nodes, &deps[k].0);
        proof {
            assert forall|n: Seq<char>| views(nodes@).contains(n) <==> exists|i: int| 0 <= i < k + 1 && #[trigger] deps@[i].0@ == n by {
                if n == deps@[k as int].0@ {
                    assert(0 <= k < k + 1 && deps@[k as int].0@ == n);
                }
            }
        }
        k = k + 1;
    }
    let mut k: usize = 0;
    while k < deps.len()
        invariant
            k <= deps@.len(),
            views(nodes@).no_duplicates(),
            forall|n: Seq<char>| views(nodes@).contains(n) <==> (
                (exists|i: int| 0 <= i < deps@.len() && #[trigger] deps@[i].0@ == n)
                || (exists|i: int, j: int| 0 <= i < k && 0 <= j < deps@[i].1@.len() && #[trigger] deps@[i].1@[j]@ == n)),
        decreases deps.len() - k,
    {
        let row = &deps[k].1;
        let mut j: usize = 0;
        while j < row.len()
            invariant
                k < deps@.len(),
                row@ == deps@[k as int].1@,
                j <= row@.len(),
                views(nodes@).no_duplicates(),
                forall|n: Seq<char>| views(nodes@).contains(n) <==> (
                    (exists|i: int| 0 <= i < deps@.len() && #[trigger] deps@[i].0@ == n)
                    || (exists|i: int, jj: int| 0 <= i < k && 0 <= jj < deps@[i].1@.len() && #[trigger] deps@[i].1@[jj]@ == n)
                    || (exists|jj: int| 0 <= jj < j && #[trigger] row@[jj]@ == n)),
            decreases row.len() - j,
        {
            add_node(&mut nodes, &row[j]);
            proof {
                assert forall|n: Seq<char>| views(nodes@).contains(n) <==> (
                    (exists|i: int| 0 <= i < deps@.len() && #[trigger] deps@[i].0@ == n)
                    || (exists|i: int, jj: int| 0 <= i < k && 0 <= jj < deps@[i].1@.len() && #[trigger] deps@[i].1@[jj]@ == n)
                    || (exists|jj: int| 0 <= jj < j + 1 && #[trigger] row@[jj]@ == n)) by {
                    if n == row@[j as int]@ {
                        assert(0 <= j < j + 1 && row@[j as int]@ == n);
                    }
                }
            }
            j = j + 1;
        }
        proof {
            assert forall|n: Seq<char>| views(nodes@).contains(n) <==> (
                (exists|i: int| 0 <= i < deps@.len() && #[trigger] deps@[i].0@ == n)
                || (exists|i: int, jj: int| 0 <= i < k + 1 && 0 <= jj < deps@[i].1@.len() && #[trigger] deps@[i].1@[jj]@ == n)) by {
                if exists|i: int, jj: int| 0 <= i < k + 1 && 0 <= jj < deps@[i].1@.len() && #[trigger] deps@[i].1@[jj]@ == n {
                    let (i, jj) = choose|i: int, jj: int| 0 <= i < k + 1 && 0 <= jj < deps@[i].1@.len() && #[trigger] deps@[i].1@[jj]@ == n;
                    if i == k {
                        assert(row@[jj]@ == n);
                    }
                }
            }
        }
        k = k + 1;
    }
    let mut edges: Vec<(usize, usize)> = Vec::new();
    let mut k: usize = 0;
    while k < deps.len()
        invariant
            k <= deps@.len(),
            views(nodes@).no_duplicates(),
            forall|n: Seq<char>| is_node(deps@, n) <==> views(nodes@).contains(n),
            edges_match(deps@, views(nodes@), edges@),
            forall|i: int, jj: int| 0 <= i < k && 0 <= jj < deps@[i].1@.len() ==> #[trigger] edge_between(
                views(nodes@), edges@, deps@[i].0@, deps@[i].1@[jj]@),
        decreases deps.len() - k,
    {
        let key = &deps[k].0;
        let row = &deps[k].1;
        assert(is_node(deps@, key@));
        let src = match index_of(&nodes, key) {
            Some(s) => s,
            None => {
                proof {
                    assert(views(nodes@).contains(key@));
                    let ii = choose|ii: int| 0 <= ii < views(nodes@).len() && views(nodes@)[ii] == key@;
                    assert(nodes@[ii]@ == key@);
                }
                0
            },
        };
        let mut j: usize = 0;
        while j < row.len()
            invariant
                k < deps@.len(),
                key@ == deps@[k as int].0@,
                row@ == deps@[k as int].1@,
                src < nodes@.len(),
                views(nodes@)[src as int] == key@,
                j <= row@.len(),
                views(nodes@).no_duplicates(),
                forall|n: Seq<char>| is_node(deps@, n) <==> views(nodes@).contains(n),
                edges_match(deps@, views(nodes@), edges@),
                forall|i: int, jj: int| 0 <= i < k && 0 <= jj < deps@[i].1@.len() ==> #[trigger] edge_between(
                    views(nodes@), edges@, deps@[i].0@, deps@[i].1@[jj]@),
                forall|jj: int| 0 <= jj < j ==> #[trigger] edge_between(views(nodes@), edges@, key@, row@[jj]@),
            decreases row.len() - j,
        {
            let d = &row[j];
            assert(deps@[k as int].1@[j as int]@ == d@);
            assert(is_node(deps@, d@));
            let tgt = match index_of(&nodes, d) {
                Some(t) => t,
                None => {
                    proof {
                        assert(views(nodes@).contains(d@));
                        let ii = choose|ii: int| 0 <= ii < views(nodes@).len() && views(nodes@)[ii] == d@;
                        assert(nodes@[ii]@ == d@);
                    }
                    0
                },
            };
            let ghost old_edges = edges@;
            edges.push((src, tgt));
            proof {
                assert(depends_on(deps@, key@, d@));
                assert(edges@ == old_edges.push((src, tgt)));
                assert forall|e: int| 0 <= e < edges@.len() implies depends_on(deps@, views(nodes@)[(#[trigger] edges@[e]).0 as int], views(nodes@)[edges@[e].1 as int]) by {
                    if e < old_edges.len() {
                        assert(edges@[e] == old_edges[e]);
                    }
                }
                assert forall|u: Seq<char>, v: Seq<char>| edge_between(views(nodes@), old_edges, u, v) implies #[trigger] edge_between(views(nodes@), edges@, u, v) by {
                    let e = choose|e: int| 0 <= e < old_edges.len() && views(nodes@)[old_edges[e].0 as int] == u && views(nodes@)[old_edges[e].1 as int] == v;
                    assert(edges@[e] == old_edges[e]);
                }
                assert(edges@[old_edges.len() as int] == (src, tgt));
                assert(edge_between(views(nodes@), edges@, key@, d@));
            }
            j = j + 1;
        }
        k = k + 1;
    }
    proof {
        assert forall|u: Seq<char>, v: Seq<char>| depends_on(deps@, u, v) implies edge_between(views(nodes@), edges@, u, v) by {
            let (i, jj) = choose|i: int, jj: int| 0 <= i < deps@.len() && 0 <= jj < deps@[i].1@.len() && #[trigger] deps@[i].0@ == u
                && #[trigger] deps@[i].1@[jj]@ == v;
            assert(edge_between(views(nodes@), edges@, deps@[i].0@, deps@[i].1@[jj]@));
        }
    }
    (nodes, edges)
}


/// A sequence shorter than `n` misses some index below `n`.
pub(crate) proof fn lemma_missing(s: Seq<usize>, n: nat) -> (v: usize)
    requires
        s.len() < n,
        n <= usize::MAX + 1,
    ensures
        v < n,
        !s.contains(v),
{
    if forall|v: usize| v < n ==> s.contains(v) {
        let r = Seq::new(n, |i: int| i as usize);
        assert(r.no_duplicates());
        r.unique_seq_to_set();
        s.lemma_cardinality_of_set();
        assert(r.to_set().subset_of(s.to_set())) by {
            assert forall|x: usize| r.to_set().contains(x) implies s.to_set().contains(x) by {
                let i = choose|i: int| 0 <= i < r.len() && r[i] == x;
                assert(s.contains(r[i]));
            }
        }
        lemma_len_subset(r.to_set(), s.to_set());
        assert(false);
    }
    choose|v: usize| v < n && !s.contains(v)
}

/// The unpopped nodes of a stalled run: each one is needed by another unpopped node.
pub open spec fn stalled(n: nat, edges: Seq<(usize, usize)>, popped: Seq<usize>) -> bool {
    &&& exists|v: usize| v < n && !popped.contains(v)
    &&& forall|v: usize| v < n && !popped.contains(v) ==> exists|e: int|
        0 <= e < edges.len() && (#[trigger] edges[e]).1 == v && !popped.contains(edges[e].0)
}

/// Kahn's algorithm over node indices: nodes nobody needs come first.
#[verifier::rlimit(60)]
fn kahn(n: usize, edges: &Vec<(usize, usize)>) -> (r: (Vec<usize>, bool))
    requires
        forall|e: int| 0 <= e < edges@.len() ==> (#[trigger] edges@[e]).0 < n && edges@[e].1 < n,
    ensures
        r.0@.no_duplicates(),
        forall|a: int| 0 <= a < r.0@.len() ==> r.0@[a] < n,
        r.1 ==> r.0@.len() == n,
        r.1 ==> forall|a: int, e: int|
            0 <= a < r.0@.len() && 0 <= e < edges@.len() && (#[trigger] edges@[e]).1 == #[trigger] r.0@[a]
                ==> exists|a2: int| 0 <= a2 < a && r.0@[a2] == edges@[e].0,
        !r.1 ==> stalled(n as nat, edges@, r.0@),
{
    let mut indeg: Vec<usize> = Vec::new();
    let mut v: usize = 0;
    while v < n
        invariant
            v <= n,
            indeg@.len() == v,
            forall|w: int| 0 <= w < v ==> indeg@[w] == 0,
        decreases n - v,
    {
        indeg.push(0);
        v = v + 1;
    }
    let ghost none_popped = Seq::new(n as nat, |i: int| false);
    let mut e: usize = 0;
    while e < edges.len()
        invariant
            e <= edges@.len(),
            indeg@.len() == n,
            none_popped == Seq::new(n as nat, |i: int| false),
            forall|e2: int| 0 <= e2 < edges@.len() ==> (#[trigger] edges@[e2]).0 < n && edges@[e2].1 < n,
            forall|w: int| 0 <= w < n ==> indeg@[w] == pend(edges@.take(e as int), none_popped, w),
            forall|w: int| 0 <= w < n ==> indeg@[w] <= e,
        decreases edges.len() - e,
    {
        let t = edges[e].1;
        proof {
            let tk = edges@.take(e + 1);
            assert(tk.drop_last() == edges@.take(e as int));
            assert(tk.last() == edges@[e as int]);
            assert(edges@[e as int].0 < n);
            assert(!none_popped[edges@[e as int].0 as int]);
            assert forall|w: int| 0 <= w < n implies pend(tk, none_popped, w) == pend(edges@.take(e as int), none_popped, w)
                + (if t == w { 1nat } else { 0nat }) by {}
        }
        let cur = indeg[t];
        indeg.set(t, cur + 1);
        e = e + 1;
    }
    assert(edges@.take(edges@.len() as int) == edges@);
    let mut ready: Vec<usize> = Vec::new();
    let mut v: usize = 0;
    while v < n
        invariant
            v <= n,
            indeg@.len() == n,
            ready@.no_duplicates(),
            forall|a: int| 0 <= a < ready@.len() ==> ready@[a] < v,
            forall|w: usize| w < v ==> (indeg@[w as int] == 0 <==> ready@.contains(w)),
        decreases n - v,
    {
        if indeg[v] == 0 {
            let ghost before = ready@;
            ready.push(v);
            proof {
                assert forall|w: usize| w < v + 1 implies (indeg@[w as int] == 0 <==> ready@.contains(w)) by {
                    if before.contains(w) {
                        let a = choose|a: int| 0 <= a < before.len() && before[a] == w;
                        assert(ready@[a] == w);
                    }
                    if w == v {
                        assert(ready@[before.len() as int] == v);
                    }
                    if ready@.contains(w) && w != v {
                        let a = choose|a: int| 0 <= a < ready@.len() && ready@[a] == w;
                        assert(a < before.len());
                        assert(before[a] == w);
                    }
                }
            }
        } else {
            proof {
                assert forall|w: usize| w < v + 1 implies (indeg@[w as int] == 0 <==> ready@.contains(w)) by {
                    if w == v && ready@.contains(w) {
                        let a = choose|a: int| 0 <= a < ready@.len() && ready@[a] == w;
                        assert(ready@[a] < v);
                    }
                }
            }
        }
        v = v + 1;
    }
    let mut h: usize = 0;
    let ghost mut popped = none_popped;
    while h < ready.len()
        invariant
            indeg@.len() == n,
            popped.len() == n,
            h <= ready@.len(),
            forall|e2: int| 0 <= e2 < edges@.len() ==> (#[trigger] edges@[e2]).0 < n && edges@[e2].1 < n,
            ready@.no_duplicates(),
            forall|a: int| 0 <= a < ready@.len() ==> ready@[a] < n,
            forall|w: int| 0 <= w < n ==> indeg@[w] == pend(edges@, popped, w),
            forall|w: usize| w < n ==> (indeg@[w as int] == 0 <==> ready@.contains(w)),
            forall|w: usize| w < n ==> (popped[w as int] <==> ready@.take(h as int).contains(w)),
            forall|a: int, e2: int|
                0 <= a < h && 0 <= e2 < edges@.len() && (#[trigger] edges@[e2]).1 == #[trigger] ready@[a]
                    ==> exists|a2: int| 0 <= a2 < a && ready@[a2] == edges@[e2].0,
        decreases n - h,
    {
        proof {
            lemma_distinct_bounded(ready@, n as nat);
        }
        let x = ready[h];
        let ghost old_popped = popped;
        let ghost old_ready = ready@;
        proof {
            assert(!ready@.take(h as int).contains(x)) by {
                if ready@.take(h as int).contains(x) {
                    let a = choose|a: int| 0 <= a < h && ready@.take(h as int)[a] == x;
                    assert(ready@[a] == ready@[h as int]);
                }
            }
            assert(indeg@[x as int] == 0);
            assert forall|e2: int| 0 <= e2 < edges@.len() && (#[trigger] edges@[e2]).1 == x implies exists|a2: int|
                0 <= a2 < h && ready@[a2] == edges@[e2].0 by {
                lemma_pend_zero(edges@, popped, x as int, e2);
                let src = edges@[e2].0;
                assert(ready@.take(h as int).contains(src));
                let a2 = choose|a2: int| 0 <= a2 < h && ready@.take(h as int)[a2] == src;
                assert(ready@[a2] == src);
            }
            popped = popped.update(x as int, true);
            assert(edges@.take(0) =~= Seq::<(usize, usize)>::empty());
            assert(edges@.skip(0) == edges@);
            assert(old_ready.is_prefix_of(ready@));
        }
        let mut e: usize = 0;
        while e < edges.len()
            invariant
                indeg@.len() == n,
                popped.len() == n,
                old_popped.len() == n,
                h < old_ready.len(),
                x == old_ready[h as int],
                popped == old_popped.update(x as int, true),
                !old_popped[x as int],
                e <= edges@.len(),
                forall|e2: int| 0 <= e2 < edges@.len() ==> (#[trigger] edges@[e2]).0 < n && edges@[e2].1 < n,
                old_ready.is_prefix_of(ready@),
                ready@.no_duplicates(),
                forall|a: int| 0 <= a < ready@.len() ==> ready@[a] < n,
                forall|w: int| 0 <= w < n ==> indeg@[w] == pend(edges@.take(e as int), popped, w) + pend(
                    edges@.skip(e as int), old_popped, w),
                forall|w: usize| w < n ==> (indeg@[w as int] == 0 <==> ready@.contains(w)),
            decreases edges.len() - e,
        {
            let (src, t) = edges[e];
            proof {
                assert(edges@.take(e + 1).drop_last() == edges@.take(e as int));
                assert(edges@.skip(e as int) == seq![edges@[e as int]] + edges@.skip(e + 1));
                assert forall|w: int| 0 <= w < n implies pend(edges@.skip(e as int), old_popped, w) == pend(
                    seq![edges@[e as int]], old_popped, w) + pend(edges@.skip(e + 1), old_popped, w) by {
                    lemma_pend_append(seq![edges@[e as int]], edges@.skip(e + 1), old_popped, w);
                }
                let one = seq![edges@[e as int]];
                assert(one.drop_last() =~= Seq::<(usize, usize)>::empty());
                assert(one.last() == edges@[e as int]);
                assert forall|w: int| 0 <= w < n implies pend(one, old_popped, w)
                    == (if edges@[e as int].1 == w && !old_popped[edges@[e as int].0 as int] { 1nat } else { 0nat }) by {
                    assert(pend(one.drop_last(), old_popped, w) == 0);
                }
            }
            if src == x {
                let cur = indeg[t];
                indeg.set(t, cur - 1);
                if cur - 1 == 0 {
                    proof {
                        assert(!ready@.contains(t));
                    }
                    let ghost before = ready@;
                    ready.push(t);
                    proof {
                        assert(ready@ == before.push(t));
                        assert forall|w: usize| w < n implies (indeg@[w as int] == 0 <==> ready@.contains(w)) by {
                            if before.contains(w) {
                                let a = choose|a: int| 0 <= a < before.len() && before[a] == w;
                                assert(ready@[a] == w);
                            }
                            if w == t {
                                assert(ready@[before.len() as int] == t);
                            }
                        }
                        assert(old_ready.is_prefix_of(ready@)) by {
                            assert forall|a: int| 0 <= a < old_ready.len() implies old_ready[a] == ready@[a] by {
                                assert(before[a] == old_ready[a]);
                            }
                        }
                    }
                }
            }
            e = e + 1;
        }
        proof {
            assert(edges@.take(edges@.len() as int) == edges@);
            assert(edges@.skip(edges@.len() as int) =~= Seq::<(usize, usize)>::empty());
            assert(ready@.take(h + 1) == old_ready.take(h as int).push(x)) by {
                assert(ready@.take(h + 1) =~= old_ready.take(h + 1));
                assert(old_ready.take(h + 1) =~= old_ready.take(h as int).push(x));
            }
            assert forall|w: usize| w < n implies (popped[w as int] <==> ready@.take(h + 1).contains(w)) by {
                if old_ready.take(h as int).contains(w) {
                    let a = choose|a: int| 0 <= a < h && old_ready.take(h as int)[a] == w;
                    assert(ready@.take(h + 1)[a] == w);
                }
                if ready@.take(h + 1).contains(w) && w != x {
                    let rt = ready@.take(h + 1);
                    let a = choose|a: int| 0 <= a < h + 1 && rt[a] == w;
                    assert(a < h);
                    assert(old_ready.take(h as int)[a] == w);
                }
                if w == x {
                    assert(ready@.take(h + 1)[h as int] == x);
                }
            }
            assert forall|a: int, e2: int|
                0 <= a < h + 1 && 0 <= e2 < edges@.len() && (#[trigger] edges@[e2]).1 == #[trigger] ready@[a]
                    implies exists|a2: int| 0 <= a2 < a && ready@[a2] == edges@[e2].0 by {
                assert(ready@[a] == old_ready[a]);
                if a < h {
                    let a2 = choose|a2: int| 0 <= a2 < a && old_ready[a2] == edges@[e2].0;
                    assert(ready@[a2] == old_ready[a2]);
                } else {
                    let a2 = choose|a2: int| 0 <= a2 < h && old_ready[a2] == edges@[e2].0;
                    assert(ready@[a2] == old_ready[a2]);
                }
            }
        }
        h = h + 1;
    }
    proof {
        lemma_distinct_bounded(ready@, n as nat);
        assert(ready@.take(h as int) == ready@);
    }
    let complete = ready.len() == n;
    proof {
        if !complete {
            let v0 = lemma_missing(ready@, n as nat);
            assert forall|v: usize| v < n && !ready@.contains(v) implies exists|e: int|
                0 <= e < edges@.len() && (#[trigger] edges@[e]).1 == v && !ready@.contains(edges@[e].0) by {
                let e = lemma_pend_positive(edges@, popped, v as int);
                assert(edges@[e].0 < n);
            }
        }
    }
    (ready, complete)
}


/// The last position in `o` holding the name of a node outside `done`,
/// searching `o[..k]`.
proof fn lemma_last_stuck(o: Seq<Seq<char>>, names: Seq<Seq<char>>, done: Seq<usize>, k: int) -> (r: (int, usize))
    requires
        0 <= k <= o.len(),
        exists|q: int, v: usize| 0 <= q < k && v < names.len() && !done.contains(v) && o[q] == names[v as int],
    ensures
        0 <= r.0 < k,
        r.1 < names.len(),
        !done.contains(r.1),
        o[r.0] == names[r.1 as int],
        forall|q: int, v: usize| r.0 < q < k && v < names.len() && !done.contains(v) ==> o[q] != names[v as int],
    decreases k,
{
    if exists|v: usize| v < names.len() && !done.contains(v) && o[k - 1] == names[v as int] {
        let v = choose|v: usize| v < names.len() && !done.contains(v) && o[k - 1] == names[v as int];
        (k - 1, v)
    } else {
        lemma_last_stuck(o, names, done, k - 1)
    }
}

/// Orders the formulae of `deps` so that each comes after everything it
/// needs. Fails exactly when no such order exists (a dependency cycle).
#[verifier::rlimit(60)]
pub fn topo_sort(deps: &DepList) -> (r: Result<Vec<String>, OlmaError>)
    ensures
        r matches Ok(v) ==> is_install_order(deps@, views(v@)),
        r matches Err(e) ==> is_cycle_error(e),
        r is Err <==> !exists|o: Seq<Seq<char>>| is_install_order(deps@, o),
{
    let (nodes, edges) = build_graph(deps);
    let ghost names = views(nodes@);
    let n = nodes.len();
    let (ready, complete) = kahn(n, &edges);
    if !complete {
        proof {
            assert forall|o: Seq<Seq<char>>| !is_install_order(deps@, o) by {
                if is_install_order(deps@, o) {
                    let v0 = choose|v: usize| v < n && !ready@.contains(v);
                    assert(is_node(deps@, names[v0 as int]));
                    let q0 = choose|q: int| 0 <= q < o.len() && o[q] == names[v0 as int];
                    let (p, vs) = lemma_last_stuck(o, names, ready@, o.len() as int);
                    let e = choose|e: int| 0 <= e < edges@.len() && (#[trigger] edges@[e]).1 == vs && !ready@.contains(edges@[e].0);
                    let u = edges@[e].0;
                    assert(depends_on(deps@, names[u as int], names[vs as int]));
                    assert(is_node(deps@, names[u as int])) by {
                        let (k, j) = choose|k: int, j: int| 0 <= k < deps@.len() && 0 <= j < deps@[k].1@.len()
                            && #[trigger] deps@[k].0@ == names[u as int] && #[trigger] deps@[k].1@[j]@ == names[vs as int];
                        assert(deps@[k].0@ == names[u as int]);
                    }
                    let q = choose|q: int| 0 <= q < o.len() && o[q] == names[u as int];
                    assert(depends_on(deps@, o[q], o[p]));
                    assert(p < q);
                }
            }
        }
        return Err(OlmaError::Other(to_string("dependency cycle detected")));
    }
    let mut out: Vec<String> = Vec::new();
    let mut i: usize = n;
    while i > 0
        invariant
            i <= n,
            n == nodes@.len(),
            names == views(nodes@),
            ready@.len() == n,
            out@.len() == n - i,
            forall|b: int| 0 <= b < out@.len() ==> #[trigger] out@[b]@ == names[ready@[n - 1 - b] as int],
            forall|a: int| 0 <= a < ready@.len() ==> ready@[a] < n,
        decreases i,
    {
        i = i - 1;
        let ghost before = out@;
        out.push(to_string(nodes[ready[i]].as_str()));
        proof {
            assert forall|b: int| 0 <= b < out@.len() implies #[trigger] out@[b]@ == names[ready@[n - 1 - b] as int] by {
                if b < before.len() {
                    assert(out@[b] == before[b]);
                }
            }
        }
    }
    proof {
        let res = views(out@);
        assert(res.len() == n);
        assert forall|b: int| 0 <= b < n implies #[trigger] res[b] == names[ready@[n - 1 - b] as int] by {
            assert(out@[b]@ == names[ready@[n - 1 - b] as int]);
        }
        // every index below n was popped
        assert forall|v: usize| v < n implies ready@.contains(v) by {
            if !ready@.contains(v) {
                let longer = ready@.push(v);
                assert(longer.no_duplicates()) by {
                    assert forall|a: int, b: int| 0 <= a < longer.len() && 0 <= b < longer.len() && a != b implies longer[a] != longer[b] by {
                        if a < ready@.len() && b < ready@.len() {
                            assert(ready@[a] != ready@[b]);
                        } else if a < ready@.len() {
                            assert(longer[a] == ready@[a]);
                        } else {
                            assert(longer[b] == ready@[b]);
                        }
                    }
                }
                lemma_distinct_bounded(longer, n as nat);
            }
        }
        assert(res.no_duplicates()) by {
            assert forall|a: int, b: int| 0 <= a < res.len() && 0 <= b < res.len() && a != b implies res[a] != res[b] by {
                assert(ready@[n - 1 - a] != ready@[n - 1 - b]);
            }
        }
        assert forall|m: Seq<char>| is_node(deps@, m) <==> res.contains(m) by {
            if is_node(deps@, m) {
                let v = choose|v: int| 0 <= v < names.len() && names[v] == m;
                assert(ready@.contains(v as usize));
                let a = choose|a: int| 0 <= a < ready@.len() && ready@[a] == v as usize;
                assert(res[n - 1 - a] == m);
            }
            if res.contains(m) {
                let b = choose|b: int| 0 <= b < res.len() && res[b] == m;
                assert(names.contains(m)) by {
                    assert(names[ready@[n - 1 - b] as int] == m);
                }
            }
        }
        assert forall|a: int, b: int|
            0 <= a < res.len() && 0 <= b < res.len() && depends_on(deps@, #[trigger] res[a], #[trigger] res[b]) implies b < a by {
            let e = choose|e: int| 0 <= e < edges@.len() && names[edges@[e].0 as int] == res[a] && names[edges@[e].1 as int] == res[b];
            let src = edges@[e].0;
            let tgt = edges@[e].1;
            assert(names[ready@[n - 1 - a] as int] == names[src as int]);
            assert(ready@[n - 1 - a] == src);
            assert(names[ready@[n - 1 - b] as int] == names[tgt as int]);
            assert(ready@[n - 1 - b] == tgt);
            assert(edges@[e].1 == ready@[n - 1 - b]);
            let a2 = choose|a2: int| 0 <= a2 < n - 1 - b && ready@[a2] == edges@[e].0;
            assert(a2 == n - 1 - a);
        }
        assert(is_install_order(deps@, res));
    }
    Ok(out)
}


/// What to install, dependencies first, and which names were asked for.
#[derive(Debug, Clone)]
pub struct InstallPlan {
    pub ordered: Vec<Formula>,
    /// The requested names, each once.
    pub requested: Vec<String>,
}

/// The names of `ds` that are not in `known`, in order.
pub open spec fn not_known(ds: Seq<Seq<char>>, known: Seq<Seq<char>>) -> Seq<Seq<char>>
    decreases ds.len(),
{
    if ds.len() == 0 {
        seq![]
    } else if known.contains(ds.last()) {
        not_known(ds.drop_last(), known)
    } else {
        not_known(ds.drop_last(), known).push(ds.last())
    }
}

/// A dependency is either known or listed among the unknown ones.
proof fn lemma_not_known_covers(ds: Seq<Seq<char>>, known: Seq<Seq<char>>, n: Seq<char>)
    requires
        ds.contains(n),
    ensures
        known.contains(n) || not_known(ds, known).contains(n),
    decreases ds.len(),
{
    if ds.last() == n {
        if !known.contains(n) {
            assert(not_known(ds, known).last() == n);
        }
    } else {
        let k = choose|k: int| 0 <= k < ds.len() && ds[k] == n;
        assert(ds.drop_last()[k] == n);
        lemma_not_known_covers(ds.drop_last(), known, n);
        if !known.contains(n) {
            let nk = not_known(ds.drop_last(), known);
            let j = choose|j: int| 0 <= j < nk.len() && nk[j] == n;
            if known.contains(ds.last()) {
            } else {
                assert(nk.push(ds.last())[j] == n);
            }
        }
    }
}

/// A formula whose name the order lists is among the formulae it picks.
proof fn lemma_formulas_for_contains(order: Seq<Seq<char>>, names: Seq<Seq<char>>, formulas: Seq<Formula>, k: int)
    requires
        0 <= k < names.len(),
        names.no_duplicates(),
        order.contains(names[k]),
    ensures
        formulas_for(order, names, formulas).contains(formulas[k]),
    decreases order.len(),
{
    let rest = formulas_for(order.drop_last(), names, formulas);
    if order.last() == names[k] {
        assert(names.contains(names[k]));
        let idx = names.index_of(names[k]);
        assert(names[idx] == names[k]);
        assert(idx == k);
        assert(rest.push(formulas[k]).last() == formulas[k]);
    } else {
        let j = choose|j: int| 0 <= j < order.len() && order[j] == names[k];
        assert(order.drop_last()[j] == names[k]);
        lemma_formulas_for_contains(order.drop_last(), names, formulas, k);
        let q = choose|q: int| 0 <= q < rest.len() && rest[q] == formulas[k];
        if names.contains(order.last()) {
            assert(rest.push(formulas[names.index_of(order.last())])[q] == formulas[k]);
        }
    }
}

/// The formulae of `order`, each looked up among the fetched ones; names
/// never fetched are skipped.
pub open spec fn formulas_for(order: Seq<Seq<char>>, names: Seq<Seq<char>>, formulas: Seq<Formula>) -> Seq<Formula>
    decreases order.len(),
{
    if order.len() == 0 {
        seq![]
    } else if names.contains(order.last()) {
        formulas_for(order.drop_last(), names, formulas).push(formulas[names.index_of(order.last())])
    } else {
        formulas_for(order.drop_last(), names, formulas)
    }
}

/// Breadth-first discovery of a set of formulae and all their dependencies.
/// The caller fetches each name that `next_to_fetch` hands out and reports
/// it with `record`; `finish` orders what was found.
pub struct ResolveState {
    queue: Vec<String>,
    head: usize,
    names: Vec<String>,
    formulas: Vec<Formula>,
    deps: DepList,
    requested: Vec<String>,
}

impl ResolveState {
    /// The state is consistent: one fetched formula per name, its
    /// dependency entry beside it, each name once.
    pub closed spec fn wf(&self) -> bool {
        &&& self.head <= self.queue@.len()
        &&& self.names@.len() == self.formulas@.len()
        &&& self.names@.len() == self.deps@.len()
        &&& views(self.names@).no_duplicates()
        &&& forall|i: int| 0 <= i < self.names@.len() ==> (#[trigger] self.deps@[i]).0@ == self.names@[i]@
            && views(self.deps@[i].1@) == views(self.formulas@[i].dependencies@)
        &&& views(self.requested@).no_duplicates()
        &&& forall|n: Seq<char>| #[trigger] views(self.requested@).contains(n) ==> self.reached(n)
        &&& forall|i: int, j: int| 0 <= i < self.deps@.len() && 0 <= j < self.deps@[i].1@.len()
            ==> self.reached(#[trigger] self.deps@[i].1@[j]@)
    }

    /// `n` has been fetched, or waits in the queue.
    pub closed spec fn reached(&self, n: Seq<char>) -> bool {
        views(self.names@).contains(n) || views(self.queue@).skip(self.head as int).contains(n)
    }

    /// Names still waiting to be looked at.
    pub closed spec fn pending(&self) -> Seq<Seq<char>> {
        views(self.queue@).skip(self.head as int)
    }

    /// Names whose formula has been recorded.
    pub closed spec fn fetched(&self) -> Seq<Seq<char>> {
        views(self.names@)
    }

    /// The dependency list gathered so far.
    pub closed spec fn dep_list(&self) -> Seq<(String, Vec<String>)> {
        self.deps@
    }

    /// The formulae recorded so far, in the order of `fetched`.
    pub closed spec fn found(&self) -> Seq<Formula> {
        self.formulas@
    }

    /// The requested names.
    pub closed spec fn requested_names(&self) -> Seq<Seq<char>> {
        views(self.requested@)
    }

    /// Starts with `targets` queued and nothing fetched.
    pub fn new(targets: &[String]) -> (r: Self)
        ensures
            r.wf(),
            r.pending() == views(targets@),
            r.fetched().len() == 0,
            forall|n: Seq<char>| r.requested_names().contains(n) <==> views(targets@).contains(n),
    {
        let mut queue: Vec<String> = Vec::new();
        let mut requested: Vec<String> = Vec::new();
        let mut i: usize = 0;
        while i < targets.len()
            invariant
                i <= targets@.len(),
                views(queue@) == views(targets@).take(i as int),
                views(requested@).no_duplicates(),
                forall|n: Seq<char>| views(requested@).contains(n) <==> views(targets@).take(i as int).contains(n),
            decreases targets.len() - i,
        {
            let t = &targets[i];
            let ghost before = views(queue@);
            queue.push(to_string(t.as_str()));
            assert(views(queue@) == before.push(t@));
            assert(views(targets@).take(i + 1) == views(targets@).take(i as int).push(t@));
            let ghost rb = views(requested@);
            add_node(&mut requested, t);
            proof {
                assert forall|n: Seq<char>| views(requested@).contains(n) <==> views(targets@).take(i + 1).contains(n) by {
                    let tk = views(targets@).take(i as int);
                    if tk.contains(n) {
                        let j = choose|j: int| 0 <= j < tk.len() && tk[j] == n;
                        assert(views(targets@).take(i + 1)[j] == n);
                    }
                    let tk1 = views(targets@).take(i + 1);
                    if tk1.contains(n) && n != t@ {
                        let j = choose|j: int| 0 <= j < i + 1 && tk1[j] == n;
                        assert(tk[j] == n);
                    }
                    if n == t@ {
                        assert(views(targets@).take(i + 1)[i as int] == n);
                    }
                }
            }
            i = i + 1;
        }
        assert(views(targets@).take(targets@.len() as int) == views(targets@));
        assert(views(queue@).skip(0) == views(queue@));
        ResolveState { queue, head: 0, names: Vec::new(), formulas: Vec::new(), deps: Vec::new(), requested }
    }

    /// Whether names still wait in the queue.
    pub fn has_pending(&self) -> (r: bool)
        requires
            self.wf(),
        ensures
            r == (self.pending().len() > 0),
    {
        self.head < self.queue.len()
    }

    /// Whether `name` has been fetched.
    pub fn is_fetched(&self, name: &String) -> (r: bool)
        ensures
            r == self.fetched().contains(name@),
    {
        match index_of(&self.names, name) {
            Some(i) => {
                assert(self.fetched()[i as int] == name@);
                true
            },
            None => false,
        }
    }

    /// Takes queued names until one that is not fetched yet, and hands it
    /// out; `None` once the queue is exhausted.
    pub fn next_to_fetch(&mut self) -> (r: Option<String>)
        requires
            old(self).wf(),
        ensures
            final(self).wf(),
            final(self).fetched() == old(self).fetched(),
            final(self).found() == old(self).found(),
            final(self).dep_list() == old(self).dep_list(),
            final(self).requested_names() == old(self).requested_names(),
            r is None ==> final(self).pending().len() == 0
                && forall|i: int| 0 <= i < old(self).pending().len() ==> old(self).fetched().contains(#[trigger] old(self).pending()[i]),
            r matches Some(n) ==> exists|i: int| 0 <= i < old(self).pending().len()
                && old(self).pending()[i] == n@
                && !old(self).fetched().contains(n@)
                && (forall|j: int| 0 <= j < i ==> old(self).fetched().contains(#[trigger] old(self).pending()[j]))
                && final(self).pending() == old(self).pending().skip(i),
    {
        let ghost start = self.head as int;
        let ghost p0 = self.pending();
        while self.head < self.queue.len()
            invariant
                self.wf(),
                start <= self.head <= self.queue@.len(),
                self.fetched() == old(self).fetched(),
                self.found() == old(self).found(),
                self.dep_list() == old(self).dep_list(),
                self.requested_names() == old(self).requested_names(),
                self.queue@ == old(self).queue@,
                start == old(self).head,
                p0 == old(self).pending(),
                forall|j: int| 0 <= j < self.head - start ==> old(self).fetched().contains(#[trigger] p0[j]),
            decreases self.queue@.len() - self.head,
        {
            let h = self.head;
            assert(p0[h - start] == self.queue@[h as int]@);
            if !self.is_fetched(&self.queue[h]) {
                let n = to_string(self.queue[h].as_str());
                assert(self.pending() =~= p0.skip(h - start));
                return Some(n);
            }
            proof {
                let pb = views(self.queue@).skip(h as int);
                let pa = views(self.queue@).skip(h + 1);
                assert(pb == seq![pb[0]] + pa);
                assert(views(self.names@).contains(pb[0]));
                assert forall|n: Seq<char>| self.reached(n) implies views(self.names@).contains(n) || pa.contains(n) by {
                    if pb.contains(n) && !views(self.names@).contains(n) {
                        let k = choose|k: int| 0 <= k < pb.len() && pb[k] == n;
                        assert(k > 0);
                        assert(pa[k - 1] == n);
                    }
                }
            }
            self.head = h + 1;
        }
        assert(self.pending() =~= Seq::<Seq<char>>::empty());
        None
    }

    /// Records the formula fetched for `name`, and queues each of its
    /// dependencies that was not fetched before.
    pub fn record(&mut self, name: String, formula: Formula)
        requires
            old(self).wf(),
            !old(self).fetched().contains(name@),
        ensures
            final(self).wf(),
            final(self).fetched() == old(self).fetched().push(name@),
            final(self).found() == old(self).found().push(formula),
            final(self).dep_list().len() == old(self).dep_list().len() + 1,
            forall|i: int| 0 <= i < old(self).dep_list().len() ==> final(self).dep_list()[i] == old(self).dep_list()[i],
            final(self).dep_list().last().0@ == name@,
            views(final(self).dep_list().last().1@) == views(formula.dependencies@),
            final(self).requested_names() == old(self).requested_names(),
            final(self).pending() == old(self).pending() + not_known(views(formula.dependencies@), old(self).fetched()),
    {
        let ghost old_pending = self.pending();
        let ds = &formula.dependencies;
        let mut i: usize = 0;
        while i < ds.len()
            invariant
                self.wf(),
                i <= ds@.len(),
                self.fetched() == old(self).fetched(),
                self.found() == old(self).found(),
                self.dep_list() == old(self).dep_list(),
                self.requested_names() == old(self).requested_names(),
                self.head == old(self).head,
                !self.fetched().contains(name@),
                self.pending() == old_pending + not_known(views(ds@).take(i as int), old(self).fetched()),
            decreases ds.len() - i,
        {
            let d = &ds[i];
            assert(views(ds@).take(i + 1).drop_last() == views(ds@).take(i as int));
            assert(views(ds@).take(i + 1).last() == d@);
            if !self.is_fetched(d) {
                let ghost qb = views(self.queue@);
                let ghost pb = self.pending();
                self.queue.push(to_string(d.as_str()));
                assert(views(self.queue@) == qb.push(d@));
                assert(self.pending() == qb.skip(self.head as int).push(d@));
                proof {
                    assert forall|n: Seq<char>| pb.contains(n) implies self.pending().contains(n) by {
                        let k = choose|k: int| 0 <= k < pb.len() && pb[k] == n;
                        assert(self.pending()[k] == n);
                    }
                }
            }
            i = i + 1;
        }
        assert(views(ds@).take(ds@.len() as int) == views(ds@));
        let mut copied: Vec<String> = Vec::new();
        let mut j: usize = 0;
        while j < ds.len()
            invariant
                j <= ds@.len(),
                views(copied@) == views(ds@).take(j as int),
            decreases ds.len() - j,
        {
            let ghost cb = views(copied@);
            copied.push(to_string(ds[j].as_str()));
            assert(views(copied@) == cb.push(ds@[j as int]@));
            assert(views(ds@).take(j + 1) == views(ds@).take(j as int).push(ds@[j as int]@));
            j = j + 1;
        }
        let ghost nb = views(self.names@);
        let ghost db = self.deps@;
        let ghost fb = self.formulas@;
        let ghost pend_now = self.pending();
        let ghost nk = not_known(views(ds@), nb);
        assert(pend_now == old_pending + nk);
        proof {
            assert forall|n: Seq<char>| views(ds@).contains(n) implies nb.contains(n) || pend_now.contains(n) by {
                lemma_not_known_covers(views(ds@), nb, n);
                if nk.contains(n) {
                    let k = choose|k: int| 0 <= k < nk.len() && nk[k] == n;
                    assert(pend_now[old_pending.len() + k] == n);
                }
            }
        }
        self.deps.push((to_string(name.as_str()), copied));
        self.names.push(name);
        self.formulas.push(formula);
        proof {
            assert(views(self.names@) == nb.push(name@));
            assert(self.formulas@ == fb.push(formula));
            assert forall|k: int| 0 <= k < self.names@.len() implies (#[trigger] self.deps@[k]).0@ == self.names@[k]@
                && views(self.deps@[k].1@) == views(self.formulas@[k].dependencies@) by {
                if k < nb.len() {
                    assert(self.deps@[k] == db[k]);
                    assert(self.names@[k]@ == nb[k]);
                    assert(self.formulas@[k] == fb[k]);
                } else {
                    assert(views(ds@).take(ds@.len() as int) == views(ds@));
                }
            }
            assert(self.pending() == pend_now);
            assert forall|n: Seq<char>| nb.contains(n) implies views(self.names@).contains(n) by {
                let k = choose|k: int| 0 <= k < nb.len() && nb[k] == n;
                assert(views(self.names@)[k] == n);
            }
            assert(views(self.names@)[nb.len() as int] == name@);
            assert forall|n: Seq<char>| #[trigger] views(self.requested@).contains(n) implies self.reached(n) by {
                if old_pending.contains(n) {
                    let k = choose|k: int| 0 <= k < old_pending.len() && old_pending[k] == n;
                    assert(pend_now[k] == n);
                }
            }
            assert forall|a: int, b: int| 0 <= a < self.deps@.len() && 0 <= b < self.deps@[a].1@.len()
                implies self.reached(#[trigger] self.deps@[a].1@[b]@) by {
                let n = self.deps@[a].1@[b]@;
                if a < db.len() {
                    assert(self.deps@[a] == db[a]);
                    if old_pending.contains(n) {
                        let k = choose|k: int| 0 <= k < old_pending.len() && old_pending[k] == n;
                        assert(pend_now[k] == n);
                    }
                } else {
                    assert(views(copied@)[b] == n);
                    assert(views(ds@)[b] == n);
                    assert(views(ds@).contains(n));
                }
            }
            assert(views(self.names@).no_duplicates()) by {
                assert forall|a: int, b: int| 0 <= a < self.names@.len() && 0 <= b < self.names@.len() && a != b
                    implies views(self.names@)[a] != views(self.names@)[b] by {
                    if a < nb.len() && b < nb.len() {
                        assert(nb[a] != nb[b]);
                    } else if a < nb.len() {
                        assert(nb.contains(nb[a]));
                    } else {
                        assert(nb.contains(nb[b]));
                    }
                }
            }
        }
    }

    /// Orders what was found, dependencies first. Fails exactly when the
    /// dependencies form a cycle.
    pub fn finish(self) -> (r: Result<InstallPlan, OlmaError>)
        requires
            self.wf(),
            self.pending().len() == 0,
        ensures
            self.fetched().no_duplicates(),
            forall|n: Seq<char>| self.requested_names().contains(n) ==> self.fetched().contains(n),
            forall|i: int, j: int| 0 <= i < self.found().len() && 0 <= j < self.found()[i].dependencies@.len()
                ==> self.fetched().contains(#[trigger] self.found()[i].dependencies@[j]@),
            r matches Ok(plan) ==> forall|i: int| 0 <= i < self.found().len() ==> plan.ordered@.contains(#[trigger] self.found()[i]),
            r matches Err(e) ==> is_cycle_error(e),
            r is Err <==> !exists|o: Seq<Seq<char>>| is_install_order(self.dep_list(), o),
            r matches Ok(plan) ==> exists|o: Seq<Seq<char>>| is_install_order(self.dep_list(), o)
                && plan.ordered@ == formulas_for(o, self.fetched(), self.found()),
            r matches Ok(plan) ==> views(plan.requested@) == self.requested_names(),
    {
        proof {
            assert(views(self.queue@).skip(self.head as int).len() == 0);
            assert forall|i: int, j: int| 0 <= i < self.found().len() && 0 <= j < self.found()[i].dependencies@.len()
                implies self.fetched().contains(#[trigger] self.found()[i].dependencies@[j]@) by {
                assert(views(self.deps@[i].1@) == views(self.formulas@[i].dependencies@));
                assert(views(self.deps@[i].1@)[j] == self.deps@[i].1@[j]@);
                assert(views(self.formulas@[i].dependencies@)[j] == self.formulas@[i].dependencies@[j]@);
                assert(self.reached(self.deps@[i].1@[j]@));
            }
        }
        let ghost dl = self.deps@;
        let ghost nm = views(self.names@);
        let ghost fd = self.formulas@;
        let order = match topo_sort(&self.deps) {
            Ok(o) => o,
            Err(e) => return Err(e),
        };
        assert(is_install_order(self.dep_list(), views(order@)));
        proof {
            assert forall|k: int| 0 <= k < fd.len() implies formulas_for(views(order@), nm, fd).contains(#[trigger] fd[k]) by {
                assert(dl[k].0@ == nm[k]);
                assert(is_node(dl, nm[k]));
                lemma_formulas_for_contains(views(order@), nm, fd, k);
            }
        }
        let ResolveState { queue: _, head: _, names, formulas, deps: _, requested } = self;
        let ghost fs0 = formulas@;
        let ghost nm0 = views(names@);
        let n = formulas.len();
        let mut fs = formulas;
        let mut slots: Vec<Option<Formula>> = Vec::new();
        while fs.len() > 0
            invariant
                fs0.len() == n,
                fs@.len() + slots@.len() == n,
                fs@ == fs0.take(fs@.len() as int),
                forall|k: int| 0 <= k < slots@.len() ==> #[trigger] slots@[k] == Some(fs0[n - 1 - k]),
            decreases fs@.len(),
        {
            let ghost before = fs@;
            let f = fs.pop().unwrap();
            assert(fs@ == fs0.take(fs@.len() as int));
            slots.push(Some(f));
        }
        let mut ordered: Vec<Formula> = Vec::new();
        let mut i: usize = 0;
        while i < order.len()
            invariant
                i <= order@.len(),
                views(order@).no_duplicates(),
                fs0.len() == n,
                nm0.len() == n,
                nm0 == views(names@),
                nm0.no_duplicates(),
                slots@.len() == n,
                forall|k: int| 0 <= k < n ==> (#[trigger] slots@[n - 1 - k] == Some(fs0[k]))
                    || views(order@).take(i as int).contains(nm0[k]),
                ordered@ == formulas_for(views(order@).take(i as int), nm0, fs0),
            decreases order.len() - i,
        {
            let nm = &order[i];
            let ghost tk = views(order@).take(i + 1);
            assert(tk.drop_last() == views(order@).take(i as int));
            assert(tk.last() == nm@);
            match index_of(&names, nm) {
                Some(k) => {
                    proof {
                        assert(nm0.contains(nm@)) by {
                            assert(nm0[k as int] == nm@);
                        }
                        let idx = nm0.index_of(nm@);
                        assert(nm0[idx] == nm@);
                        if idx != k as int {
                            assert(nm0[idx] != nm0[k as int]);
                        }
                        assert(!views(order@).take(i as int).contains(nm@)) by {
                            if views(order@).take(i as int).contains(nm@) {
                                let j = choose|j: int| 0 <= j < i && views(order@).take(i as int)[j] == nm@;
                                assert(views(order@)[j] == views(order@)[i as int]);
                            }
                        }
                    }
                    let mut tmp: Option<Formula> = None;
                    std::mem::swap(&mut tmp, &mut slots[n - 1 - k]);
                    let f = tmp.unwrap();
                    ordered.push(f);
                },
                None => {
                    assert(!nm0.contains(nm@));
                },
            }
            proof {
                assert forall|k: int| 0 <= k < n implies (#[trigger] slots@[n - 1 - k] == Some(fs0[k]))
                    || views(order@).take(i + 1).contains(nm0[k]) by {
                    if views(order@).take(i as int).contains(nm0[k]) {
                        let j = choose|j: int| 0 <= j < i && views(order@).take(i as int)[j] == nm0[k];
                        assert(views(order@).take(i + 1)[j] == nm0[k]);
                    }
                    if nm0[k] == nm@ {
                        assert(views(order@).take(i + 1)[i as int] == nm0[k]);
                    }
                }
            }
            i = i + 1;
        }
        assert(views(order@).take(order@.len() as int) == views(order@));
        Ok(InstallPlan { ordered, requested })
    }
}

} // verus!
