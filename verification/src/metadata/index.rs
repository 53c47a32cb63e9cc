//! The local index of all formulae, for search and suggestions.
use vstd::prelude::*;
use vstd::utf8::encode_utf8;
use crate::text::{chars_of, contains_chars, contains_seq};

verus! {

/// One formula of the index.
#[derive(Debug, Clone)]
pub struct IndexEntry {
    pub name: String,
    pub desc: Option<String>,
}

/// Every formula, as the full dump lists them.
pub struct Index {
    pub entries: Vec<IndexEntry>,
}

/// The lower-case form of a string, by Unicode case mapping.
pub uninterp spec fn lowercase_spec(s: Seq<char>) -> Seq<char>;

/// `str::to_lowercase`.
#[verifier::external_body]
pub(crate) fn to_lowercase(s: &str) -> (r: String)
    ensures
        r@ == lowercase_spec(s@),
{
    s.to_lowercase()
}

/// Whether an entry matches a lower-cased query: its name or description,
/// lower-cased, contains it.
pub open spec fn entry_matches(e: IndexEntry, q: Seq<char>) -> bool {
    ||| contains_seq(lowercase_spec(e.name@), q)
    ||| (e.desc matches Some(d) && contains_seq(lowercase_spec(d@), q))
}

/// The entries that match `q`, in index order.
pub open spec fn matching(entries: Seq<IndexEntry>, q: Seq<char>) -> Seq<IndexEntry>
    decreases entries.len(),
{
    if entries.len() == 0 {
        seq![]
    } else if entry_matches(entries.last(), q) {
        matching(entries.drop_last(), q).push(entries.last())
    } else {
        matching(entries.drop_last(), q)
    }
}

/// The search returns exactly the entries whose lower-cased name or
/// description holds the query anywhere, in index order: each such entry is
/// in the result, and every result is such an entry of the index.
pub proof fn lemma_matching_exact(entries: Seq<IndexEntry>, q: Seq<char>)
    ensures
        forall|i: int| 0 <= i < entries.len() && contains_seq(lowercase_spec(#[trigger] entries[i].name@), q)
            ==> matching(entries, q).contains(entries[i]),
        forall|i: int| 0 <= i < entries.len() && (entries[i].desc matches Some(d) && contains_seq(lowercase_spec(d@), q))
            ==> matching(entries, q).contains(#[trigger] entries[i]),
        forall|e: IndexEntry| #[trigger] matching(entries, q).contains(e) ==> entries.contains(e)
            && (contains_seq(lowercase_spec(e.name@), q) || (e.desc matches Some(d) && contains_seq(lowercase_spec(d@), q))),
    decreases entries.len(),
{
    if entries.len() > 0 {
        let init = entries.drop_last();
        lemma_matching_exact(init, q);
        let m0 = matching(init, q);
        let m = matching(entries, q);
        assert forall|i: int| #![trigger entries[i]] 0 <= i < entries.len() && (contains_seq(lowercase_spec(entries[i].name@), q)
            || (entries[i].desc matches Some(d) && contains_seq(lowercase_spec(d@), q))) implies m.contains(entries[i]) by {
            if i < entries.len() - 1 {
                assert(init[i] == entries[i]);
                assert(contains_seq(lowercase_spec(init[i].name@), q) ==> m0.contains(init[i]));
                assert(m0.contains(init[i]));
                let k = choose|k: int| 0 <= k < m0.len() && m0[k] == init[i];
                if entry_matches(entries.last(), q) {
                    assert(m0.push(entries.last())[k] == entries[i]);
                }
            } else {
                assert(entries.last() == entries[i]);
                assert(m == m0.push(entries.last()));
                assert(m[m0.len() as int] == entries[i]);
            }
        }
        assert forall|e: IndexEntry| #[trigger] m.contains(e) implies entries.contains(e)
            && (contains_seq(lowercase_spec(e.name@), q) || (e.desc matches Some(d) && contains_seq(lowercase_spec(d@), q))) by {
            let k = choose|k: int| 0 <= k < m.len() && m[k] == e;
            if k < m0.len() {
                assert(m0[k] == e);
                assert(m0.contains(e));
                let j = choose|j: int| 0 <= j < init.len() && init[j] == e;
                assert(entries[j] == e);
            } else {
                assert(entries[entries.len() - 1] == e);
            }
        }
    }
}

/// `c` as `u8::to_ascii_lowercase` leaves it.
pub open spec fn lower_byte(c: u8) -> u8 {
    if 65 <= c <= 90 { (c + 32) as u8 } else { c }
}

/// The cost of aligning two bytes: nothing when they agree ignoring ASCII case.
pub open spec fn subst_cost(x: u8, y: u8) -> nat {
    if lower_byte(x) == lower_byte(y) { 0 } else { 1 }
}

pub open spec fn min3(x: nat, y: nat, z: nat) -> nat {
    let m = if x < y { x } else { y };
    if m < z { m } else { z }
}

/// The edit distance between two byte strings (insertions, deletions and
/// substitutions, each costing one; bytes equal ignoring ASCII case match).
pub open spec fn lev(a: Seq<u8>, b: Seq<u8>) -> nat
    decreases a.len() + b.len(),
{
    if a.len() == 0 {
        b.len()
    } else if b.len() == 0 {
        a.len()
    } else {
        min3(
            lev(a.drop_last(), b) + 1,
            lev(a, b.drop_last()) + 1,
            lev(a.drop_last(), b.drop_last()) + subst_cost(a.last(), b.last()),
        )
    }
}

/// The distance is never more than the longer length.
proof fn lemma_lev_bound(a: Seq<u8>, b: Seq<u8>)
    ensures
        lev(a, b) <= if a.len() < b.len() { b.len() } else { a.len() },
    decreases a.len() + b.len(),
{
    if a.len() > 0 && b.len() > 0 {
        lemma_lev_bound(a.drop_last(), b.drop_last());
    }
}

/// Every string is at distance zero from itself.
pub proof fn lemma_lev_same(a: Seq<u8>)
    ensures
        lev(a, a) == 0,
    decreases a.len(),
{
    if a.len() > 0 {
        lemma_lev_same(a.drop_last());
    }
}

/// Distance does not depend on the order of its arguments.
pub proof fn lemma_lev_symmetric(a: Seq<u8>, b: Seq<u8>)
    ensures
        lev(a, b) == lev(b, a),
    decreases a.len() + b.len(),
{
    if a.len() > 0 && b.len() > 0 {
        lemma_lev_symmetric(a.drop_last(), b);
        lemma_lev_symmetric(a, b.drop_last());
        lemma_lev_symmetric(a.drop_last(), b.drop_last());
    }
}

/// The edit distance between `a` and `b`, comparing bytes without regard
/// to ASCII case.
pub fn levenshtein(a: &str, b: &str) -> (r: usize)
    requires
        encode_utf8(a@).len() < usize::MAX,
        encode_utf8(b@).len() < usize::MAX,
    ensures
        r == lev(encode_utf8(a@), encode_utf8(b@)),
{
    let a = a.as_bytes();
    let b = b.as_bytes();
    let ghost av = a@;
    let ghost bv = b@;
    let bl = b.len();
    let mut prev: Vec<usize> = Vec::new();
    let mut j: usize = 0;
    while j <= bl
        invariant
            bl == bv.len(),
            bl < usize::MAX,
            j <= bl + 1,
            prev@.len() == j,
            forall|k: int| 0 <= k < j ==> prev@[k] == lev(Seq::<u8>::empty(), bv.take(k)),
        decreases bl + 1 - j,
    {
        assert(lev(Seq::<u8>::empty(), bv.take(j as int)) == j);
        prev.push(j);
        j = j + 1;
    }
    let mut i: usize = 1;
    assert(av.take(0) =~= Seq::<u8>::empty());
    while i <= a.len()
        invariant
            av == a@,
            bv == b@,
            bl == bv.len(),
            bl < usize::MAX,
            av.len() < usize::MAX,
            1 <= i <= av.len() + 1,
            prev@.len() == bl + 1,
            forall|k: int| 0 <= k <= bl ==> #[trigger] prev@[k] == lev(av.take(i - 1), bv.take(k)),
        decreases av.len() + 1 - i,
    {
        let mut curr: Vec<usize> = Vec::new();
        assert(av.take(i as int).len() > 0);
        assert(lev(av.take(i as int), bv.take(0)) == i) by {
            assert(bv.take(0).len() == 0);
        }
        curr.push(i);
        let mut j: usize = 1;
        while j <= bl
            invariant
                av == a@,
                bv == b@,
                bl == bv.len(),
                bl < usize::MAX,
                av.len() < usize::MAX,
                1 <= i <= av.len(),
                1 <= j <= bl + 1,
                prev@.len() == bl + 1,
                curr@.len() == j,
                forall|k: int| 0 <= k <= bl ==> #[trigger] prev@[k] == lev(av.take(i - 1), bv.take(k)),
                forall|k: int| 0 <= k < j ==> #[trigger] curr@[k] == lev(av.take(i as int), bv.take(k)),
            decreases bl + 1 - j,
        {
            let x = a[i - 1];
            let y = b[j - 1];
            let lx = if 65 <= x && x <= 90 { x + 32 } else { x };
            let ly = if 65 <= y && y <= 90 { y + 32 } else { y };
            let cost: usize = if lx == ly { 0 } else { 1 };
            proof {
                let ai = av.take(i as int);
                let bj = bv.take(j as int);
                assert(ai.drop_last() == av.take(i - 1));
                assert(bj.drop_last() == bv.take(j - 1));
                assert(ai.last() == x);
                assert(bj.last() == y);
                lemma_lev_bound(av.take(i - 1), bj);
                lemma_lev_bound(ai, bv.take(j - 1));
                lemma_lev_bound(av.take(i - 1), bv.take(j - 1));
            }
            let del = prev[j] + 1;
            let ins = curr[j - 1] + 1;
            let sub = prev[j - 1] + cost;
            let m1 = if ins < del { ins } else { del };
            let m = if m1 < sub { m1 } else { sub };
            curr.push(m);
            j = j + 1;
        }
        prev = curr;
        i = i + 1;
    }
    assert(av.take(av.len() as int) == av);
    assert(bv.take(bl as int) == bv);
    prev[bl]
}

impl Index {
    /// The entries whose name or description contains `query`, ignoring case.
    pub fn substring(&self, query: &str) -> (r: Vec<&IndexEntry>)
        ensures
            r@.map_values(|e: &IndexEntry| *e) == matching(self.entries@, lowercase_spec(query@)),
            forall|i: int| 0 <= i < self.entries@.len()
                && contains_seq(lowercase_spec(#[trigger] self.entries@[i].name@), lowercase_spec(query@))
                ==> exists|k: int| 0 <= k < r@.len() && *r@[k] == self.entries@[i],
            forall|k: int| 0 <= k < r@.len() ==> self.entries@.contains(*#[trigger] r@[k])
                && (contains_seq(lowercase_spec(r@[k].name@), lowercase_spec(query@))
                || (r@[k].desc matches Some(d) && contains_seq(lowercase_spec(d@), lowercase_spec(query@)))),
    {
        let q = to_lowercase(query);
        let qc = chars_of(q.as_str());
        let mut out: Vec<&IndexEntry> = Vec::new();
        let mut i: usize = 0;
        assert(self.entries@.take(0) =~= Seq::<IndexEntry>::empty());
        while i < self.entries.len()
            invariant
                i <= self.entries@.len(),
                qc@ == lowercase_spec(query@),
                out@.map_values(|e: &IndexEntry| *e) == matching(self.entries@.take(i as int), qc@),
            decreases self.entries.len() - i,
        {
            let e = &self.entries[i];
            assert(self.entries@.take(i + 1).drop_last() == self.entries@.take(i as int));
            assert(self.entries@.take(i + 1).last() == *e);
            let nl = to_lowercase(e.name.as_str());
            let nc = chars_of(nl.as_str());
            let hit = if contains_chars(&nc, &qc) {
                true
            } else {
                match &e.desc {
                    Some(d) => {
                        let dl = to_lowercase(d.as_str());
                        let dc = chars_of(dl.as_str());
                        contains_chars(&dc, &qc)
                    },
                    None => false,
                }
            };
            if hit {
                let ghost before = out@;
                out.push(e);
                assert(out@.map_values(|x: &IndexEntry| *x) == before.map_values(|x: &IndexEntry| *x).push(*e));
            }
            i = i + 1;
        }
        assert(self.entries@.take(self.entries@.len() as int) == self.entries@);
        proof {
            let q = lowercase_spec(query@);
            let mv = out@.map_values(|e: &IndexEntry| *e);
            lemma_matching_exact(self.entries@, q);
            assert forall|i: int| 0 <= i < self.entries@.len() && contains_seq(lowercase_spec(#[trigger] self.entries@[i].name@), q)
                implies exists|k: int| 0 <= k < out@.len() && *out@[k] == self.entries@[i] by {
                assert(mv.contains(self.entries@[i]));
                let k = choose|k: int| 0 <= k < mv.len() && mv[k] == self.entries@[i];
                assert(*out@[k] == self.entries@[i]);
            }
            assert forall|k: int| 0 <= k < out@.len() implies self.entries@.contains(*#[trigger] out@[k])
                && (contains_seq(lowercase_spec(out@[k].name@), q)
                || (out@[k].desc matches Some(d) && contains_seq(lowercase_spec(d@), q))) by {
                assert(mv[k] == *out@[k]);
                assert(mv.contains(*out@[k]));
            }
        }
        out
    }
}

/// Entry `i` comes before entry `j` when it is closer, or as close and
/// earlier in the index.
pub open spec fn ranks_before(d: Seq<nat>, i: int, j: int) -> bool {
    d[i] < d[j] || (d[i] == d[j] && i < j)
}

/// `js` lists the `min(n, d.len())` entries that come first by distance
/// `d`, in that order (ties keep index order): a stable sort, truncated.
pub open spec fn is_best(d: Seq<nat>, n: nat, js: Seq<int>) -> bool {
    &&& js.len() == (if n < d.len() { n } else { d.len() })
    &&& forall|a: int| 0 <= a < js.len() ==> 0 <= #[trigger] js[a] < d.len()
    &&& forall|a: int, b: int| 0 <= a < b < js.len() ==> ranks_before(d, #[trigger] js[a], #[trigger] js[b])
    &&& forall|j: int, a: int| 0 <= j < d.len() && !js.contains(j) && 0 <= a < js.len() ==> #[trigger] ranks_before(d, js[a], j)
}

/// The distance of each entry's name from `query`.
pub open spec fn distances(entries: Seq<IndexEntry>, query: Seq<char>) -> Seq<nat> {
    Seq::new(entries.len(), |j: int| lev(encode_utf8(entries[j].name@), encode_utf8(query)))
}

/// Every name, and the query, are shorter than the largest `usize`.
pub open spec fn lengths_fit(entries: Seq<IndexEntry>, query: Seq<char>) -> bool {
    &&& encode_utf8(query).len() < usize::MAX
    &&& forall|j: int| 0 <= j < entries.len() ==> encode_utf8((#[trigger] entries[j]).name@).len() < usize::MAX
}

impl Index {
    /// The positions of the `n` entries whose names are closest to `query`,
    /// closest first, ties in index order.
    pub fn did_you_mean_indices(&self, query: &str, n: usize) -> (r: Vec<usize>)
        requires
            lengths_fit(self.entries@, query@),
        ensures
            is_best(distances(self.entries@, query@), n as nat, r@.map_values(|j: usize| j as int)),
    {
        let len = self.entries.len();
        let ghost d = distances(self.entries@, query@);
        let mut ds: Vec<usize> = Vec::new();
        let mut j: usize = 0;
        while j < len
            invariant
                len == self.entries@.len(),
                lengths_fit(self.entries@, query@),
                d == distances(self.entries@, query@),
                j <= len,
                ds@.len() == j,
                forall|k: int| 0 <= k < j ==> ds@[k] as nat == #[trigger] d[k],
            decreases len - j,
        {
            let dist = levenshtein(self.entries[j].name.as_str(), query);
            ds.push(dist);
            j = j + 1;
        }
        let limit = if n < len { n } else { len };
        let mut taken: Vec<bool> = Vec::new();
        let mut j: usize = 0;
        while j < len
            invariant
                j <= len,
                taken@.len() == j,
                forall|k: int| 0 <= k < j ==> !taken@[k],
            decreases len - j,
        {
            taken.push(false);
            j = j + 1;
        }
        let mut out: Vec<usize> = Vec::new();
        while out.len() < limit
            invariant
                len == d.len(),
                ds@.len() == len,
                forall|k: int| 0 <= k < len ==> ds@[k] as nat == #[trigger] d[k],
                limit <= len,
                out@.len() <= limit,
                taken@.len() == len,
                forall|k: int| 0 <= k < len ==> (taken@[k] <==> out@.map_values(|x: usize| x as int).contains(k)),
                forall|a: int| 0 <= a < out@.len() ==> #[trigger] out@[a] < len,
                forall|a: int, b: int| 0 <= a < b < out@.len() ==> ranks_before(d, #[trigger] out@[a] as int, #[trigger] out@[b] as int),
                forall|k: int, a: int| 0 <= k < len && !taken@[k] && 0 <= a < out@.len() ==> #[trigger] ranks_before(d, out@[a] as int, k),
            decreases limit - out@.len(),
        {
            let ghost ov = out@.map_values(|x: usize| x as int);
            // some entry is still free
            proof {
                if forall|k: int| 0 <= k < len ==> taken@[k] {
                    let s = out@;
                    let v = crate::resolver::lemma_missing(s, len as nat);
                    assert(taken@[v as int]);
                    let a = choose|a: int| 0 <= a < ov.len() && ov[a] == v as int;
                    assert(s[a] == v);
                }
            }
            let mut best: usize = len;
            let mut k: usize = 0;
            while k < len
                invariant
                    len == d.len(),
                    ds@.len() == len,
                    forall|q: int| 0 <= q < len ==> ds@[q] as nat == #[trigger] d[q],
                    taken@.len() == len,
                    k <= len,
                    best == len || (best < k && !taken@[best as int]),
                    best == len ==> forall|q: int| 0 <= q < k ==> taken@[q],
                    best < len ==> forall|q: int| 0 <= q < k && !taken@[q] && q != best ==> ranks_before(d, best as int, q),
                decreases len - k,
            {
                if !taken[k] {
                    if best == len || ds[k] < ds[best] {
                        best = k;
                    }
                }
                k = k + 1;
            }
            proof {
                if best == len {
                    let v = choose|v: int| 0 <= v < len && !taken@[v];
                    assert(taken@[v]);
                }
            }
            let ghost before = out@;
            out.push(best);
            taken.set(best, true);
            proof {
                let nv = out@.map_values(|x: usize| x as int);
                assert(nv == ov.push(best as int));
                assert forall|q: int| 0 <= q < len implies (taken@[q] <==> nv.contains(q)) by {
                    if ov.contains(q) {
                        let a = choose|a: int| 0 <= a < ov.len() && ov[a] == q;
                        assert(nv[a] == q);
                    }
                    if nv.contains(q) && q != best as int {
                        let a = choose|a: int| 0 <= a < nv.len() && nv[a] == q;
                        assert(a < ov.len());
                        assert(ov[a] == q);
                    }
                    if q == best as int {
                        assert(nv[ov.len() as int] == q);
                    }
                }
                assert forall|a: int, b: int| 0 <= a < b < out@.len() implies ranks_before(d, #[trigger] out@[a] as int, #[trigger] out@[b] as int) by {
                    if b < before.len() {
                        assert(out@[a] == before[a] && out@[b] == before[b]);
                    } else {
                        assert(out@[a] == before[a]);
                    }
                }
            }
        }
        proof {
            let ov = out@.map_values(|x: usize| x as int);
            assert forall|j: int, a: int| 0 <= j < d.len() && !ov.contains(j) && 0 <= a < ov.len() implies #[trigger] ranks_before(d, ov[a], j) by {
                assert(!taken@[j]);
                assert(ov[a] == out@[a] as int);
            }
            assert forall|a: int| 0 <= a < ov.len() implies 0 <= #[trigger] ov[a] < d.len() by {
                assert(ov[a] == out@[a] as int);
            }
            assert forall|a: int, b: int| 0 <= a < b < ov.len() implies ranks_before(d, #[trigger] ov[a], #[trigger] ov[b]) by {
                assert(ov[a] == out@[a] as int && ov[b] == out@[b] as int);
            }
        }
        out
    }

    /// The `n` entries whose names are closest to `query` (edit distance,
    /// ignoring ASCII case), closest first, ties in index order.
    pub fn did_you_mean(&self, query: &str, n: usize) -> (r: Vec<&IndexEntry>)
        requires
            lengths_fit(self.entries@, query@),
        ensures
            exists|js: Seq<int>| is_best(distances(self.entries@, query@), n as nat, js)
                && r@.len() == js.len()
                && forall|a: int| 0 <= a < js.len() ==> *r@[a] == self.entries@[#[trigger] js[a]],
    {
        let idx = self.did_you_mean_indices(query, n);
        let ghost js = idx@.map_values(|j: usize| j as int);
        let mut out: Vec<&IndexEntry> = Vec::new();
        let mut i: usize = 0;
        while i < idx.len()
            invariant
                i <= idx@.len(),
                js == idx@.map_values(|j: usize| j as int),
                is_best(distances(self.entries@, query@), n as nat, js),
                out@.len() == i,
                forall|a: int| 0 <= a < i ==> *out@[a] == self.entries@[#[trigger] js[a]],
            decreases idx.len() - i,
        {
            assert(0 <= js[i as int] < self.entries@.len());
            out.push(&self.entries[idx[i]]);
            i = i + 1;
        }
        out
    }
}

impl Index {
    /// Whether every name, and the query, fit the bound that
    /// `did_you_mean` needs.
    pub fn lengths_fit_for(&self, query: &str) -> (r: bool)
        ensures
            r == lengths_fit(self.entries@, query@),
    {
        if query.as_bytes().len() == usize::MAX {
            return false;
        }
        let mut i: usize = 0;
        while i < self.entries.len()
            invariant
                i <= self.entries@.len(),
                forall|j: int| 0 <= j < i ==> encode_utf8((#[trigger] self.entries@[j]).name@).len() < usize::MAX,
            decreases self.entries.len() - i,
        {
            if self.entries[i].name.as_str().as_bytes().len() == usize::MAX {
                return false;
            }
            i = i + 1;
        }
        true
    }
}

} // verus!
