//! What `search` prints for a query.
use vstd::prelude::*;
use crate::metadata::index::{distances, is_best, lengths_fit, lowercase_spec, matching, Index, IndexEntry};
use crate::resolver::views;
use crate::text::{dec_string, pad_right, push_padded, push_str, push_u64, to_string};

verus! {

/// The description of an entry, or nothing.
pub open spec fn desc_text(e: IndexEntry) -> Seq<char> {
    match e.desc {
        Some(d) => d@,
        None => Seq::empty(),
    }
}

/// The line for one hit: the name in 28 columns, then the description.
pub open spec fn hit_line(e: IndexEntry) -> Seq<char> {
    "  "@ + pad_right(e.name@, 28) + " "@ + desc_text(e)
}

/// At most 40 hits, then how many more there are.
pub open spec fn hit_lines(hits: Seq<IndexEntry>) -> Seq<Seq<char>> {
    if hits.len() > 40 {
        Seq::new(40, |i: int| hit_line(hits[i])).push("  ... and "@ + dec_string((hits.len() - 40) as nat) + " more"@)
    } else {
        Seq::new(hits.len(), |i: int| hit_line(hits[i]))
    }
}

/// The line that says nothing matched.
pub open spec fn no_match_line(query: Seq<char>) -> Seq<char> {
    "  No formula matches \""@ + query + "\"."@
}

/// The suggestions block: a heading, then one name per line; nothing when
/// there are no names.
pub open spec fn suggestion_lines(names: Seq<Seq<char>>) -> Seq<Seq<char>> {
    if names.len() == 0 {
        seq![]
    } else {
        seq!["\n  Did you mean:"@] + names.map_values(|n: Seq<char>| "    "@ + n)
    }
}

/// The names of the entries at positions `js`.
pub open spec fn names_at(entries: Seq<IndexEntry>, js: Seq<int>) -> Seq<Seq<char>> {
    js.map_values(|j: int| entries[j].name@)
}

/// The line for one hit.
fn hit_line_of(e: &IndexEntry) -> (r: String)
    ensures
        r@ == hit_line(*e),
{
    let mut s = to_string("  ");
    push_padded(&mut s, e.name.as_str(), 28);
    push_str(&mut s, " ");
    match &e.desc {
        Some(d) => push_str(&mut s, d.as_str()),
        None => {
            assert(s@ + Seq::<char>::empty() == s@);
        },
    }
    s
}

/// The lines `search` prints: the entries whose name or description holds
/// the query (ignoring case), at most 40; or, when none does, a notice and
/// the three names closest to the query.
pub fn search_lines(index: &Index, query: &str) -> (r: Vec<String>)
    ensures
        matching(index.entries@, lowercase_spec(query@)).len() > 0 ==>
            views(r@) == hit_lines(matching(index.entries@, lowercase_spec(query@))),
        matching(index.entries@, lowercase_spec(query@)).len() == 0 && lengths_fit(index.entries@, query@) ==>
            exists|js: Seq<int>| is_best(distances(index.entries@, query@), 3, js)
                && views(r@) == seq![no_match_line(query@)] + suggestion_lines(names_at(index.entries@, js)),
        matching(index.entries@, lowercase_spec(query@)).len() == 0 && !lengths_fit(index.entries@, query@) ==>
            views(r@) == seq![no_match_line(query@)],
{
    let hits = index.substring(query);
    let ghost hs = hits@.map_values(|e: &IndexEntry| *e);
    let mut out: Vec<String> = Vec::new();
    if hits.len() > 0 {
        let shown: usize = if hits.len() > 40 { 40 } else { hits.len() };
        let mut i: usize = 0;
        while i < shown
            invariant
                i <= shown <= hits@.len(),
                hs == hits@.map_values(|e: &IndexEntry| *e),
                views(out@) == Seq::new(i as nat, |k: int| hit_line(hs[k])),
            decreases shown - i,
        {
            let line = hit_line_of(hits[i]);
            let ghost before = out@;
            out.push(line);
            assert(views(out@) =~= views(before).push(hit_line(hs[i as int])));
            assert(Seq::new((i + 1) as nat, |k: int| hit_line(hs[k])) =~= Seq::new(i as nat, |k: int| hit_line(hs[k])).push(hit_line(hs[i as int])));
            i = i + 1;
        }
        if hits.len() > 40 {
            let mut more = to_string("  ... and ");
            push_u64(&mut more, (hits.len() - 40) as u64);
            push_str(&mut more, " more");
            let ghost before = out@;
            out.push(more);
            assert(views(out@) =~= views(before).push(more@));
        }
        return out;
    }
    let mut head = to_string("  No formula matches \"");
    push_str(&mut head, query);
    push_str(&mut head, "\".");
    out.push(head);
    assert(views(out@) =~= seq![no_match_line(query@)]);
    if !index.lengths_fit_for(query) {
        return out;
    }
    let sugg = index.did_you_mean(query, 3);
    let ghost js = choose|js: Seq<int>| is_best(distances(index.entries@, query@), 3, js)
        && sugg@.len() == js.len()
        && forall|a: int| 0 <= a < js.len() ==> *sugg@[a] == index.entries@[#[trigger] js[a]];
    if sugg.len() > 0 {
        out.push(to_string("\n  Did you mean:"));
        let mut k: usize = 0;
        while k < sugg.len()
            invariant
                k <= sugg@.len(),
                sugg@.len() == js.len(),
                forall|a: int| 0 <= a < js.len() ==> *sugg@[a] == index.entries@[#[trigger] js[a]],
                views(out@) == seq![no_match_line(query@), "\n  Did you mean:"@]
                    + names_at(index.entries@, js).take(k as int).map_values(|n: Seq<char>| "    "@ + n),
            decreases sugg.len() - k,
        {
            let mut line = to_string("    ");
            push_str(&mut line, sugg[k].name.as_str());
            let ghost before = out@;
            out.push(line);
            assert(names_at(index.entries@, js).take(k + 1) =~= names_at(index.entries@, js).take(k as int).push(
                index.entries@[js[k as int]].name@,
            ));
            assert(views(out@) =~= views(before).push(line@));
            k = k + 1;
        }
        assert(names_at(index.entries@, js).take(js.len() as int) =~= names_at(index.entries@, js));
    }
    out
}

} // verus!
