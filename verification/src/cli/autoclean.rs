//! What `autoclean` may delete: superseded package versions and bottles
//! that no installed package uses.
use vstd::prelude::*;
use crate::cli::autoremove::list_contains;
use crate::resolver::views;
use crate::state::packages::PackageRow;
use crate::text::{chars_of, dec_string, push_str, push_u64, string_of, to_string};

verus! {

/// `suf` ends `s`.
pub open spec fn ends_with(s: Seq<char>, suf: Seq<char>) -> bool {
    suf.len() <= s.len() && s.skip(s.len() - suf.len()) == suf
}

/// `s` with every trailing copy of `suf` removed (`str::trim_end_matches`).
pub open spec fn trim_suffixes(s: Seq<char>, suf: Seq<char>) -> Seq<char>
    decreases s.len(),
{
    if suf.len() > 0 && ends_with(s, suf) {
        trim_suffixes(s.take(s.len() - suf.len()), suf)
    } else {
        s
    }
}

/// Whether `s` ends with `suf`.
fn ends_with_exec(s: &Vec<char>, len: usize, suf: &Vec<char>) -> (r: bool)
    requires
        len <= s@.len(),
    ensures
        r == ends_with(s@.take(len as int), suf@),
{
    if suf.len() > len {
        return false;
    }
    let start = len - suf.len();
    let mut i: usize = 0;
    while i < suf.len()
        invariant
            start + suf@.len() == len <= s@.len(),
            i <= suf@.len(),
            forall|j: int| 0 <= j < i ==> s@[start + j] == suf@[j],
        decreases suf.len() - i,
    {
        if s[start + i] != suf[i] {
            assert(s@.take(len as int).skip(start as int)[i as int] == s@[start + i]);
            return false;
        }
        i = i + 1;
    }
    assert(s@.take(len as int).skip(start as int) =~= suf@);
    true
}

/// The checksum that names a cached bottle file, if the file is a bottle
/// (`<sha256>.tar.gz`) that no installed package uses: those in `live`.
pub fn orphan_bottle(file_name: &str, live: &Vec<String>) -> (r: Option<String>)
    ensures
        !ends_with(file_name@, ".tar.gz"@) ==> r is None,
        ends_with(file_name@, ".tar.gz"@) && views(live@).contains(trim_suffixes(file_name@, ".tar.gz"@)) ==> r is None,
        ends_with(file_name@, ".tar.gz"@) && !views(live@).contains(trim_suffixes(file_name@, ".tar.gz"@)) ==>
            (r matches Some(s) && s@ == trim_suffixes(file_name@, ".tar.gz"@)),
{
    let suffix = ".tar.gz";
    proof {
        reveal_strlit(".tar.gz");
    }
    let cs = chars_of(file_name);
    let sf = chars_of(suffix);
    assert(cs@.take(cs@.len() as int) == cs@);
    if !ends_with_exec(&cs, cs.len(), &sf) {
        return None;
    }
    let mut len = cs.len();
    while ends_with_exec(&cs, len, &sf)
        invariant
            len <= cs@.len(),
            sf@ == ".tar.gz"@,
            sf@.len() > 0,
            trim_suffixes(cs@.take(len as int), sf@) == trim_suffixes(cs@, sf@),
        decreases len,
    {
        assert(cs@.take(len as int).take(len - sf@.len()) == cs@.take(len - sf@.len()));
        len = len - sf.len();
    }
    let mut kept: Vec<char> = Vec::new();
    let mut i: usize = 0;
    while i < len
        invariant
            i <= len <= cs@.len(),
            kept@ == cs@.take(i as int),
        decreases len - i,
    {
        kept.push(cs[i]);
        assert(cs@.take(i + 1) == cs@.take(i as int).push(cs@[i as int]));
        i = i + 1;
    }
    let sha = string_of(&kept);
    if list_contains(live, sha.as_str()) {
        None
    } else {
        Some(sha)
    }
}

/// Of the first `k` rows, each (name, previous version) that keeps a
/// rollback target, in order.
pub open spec fn previous_generations(rows: Seq<PackageRow>, k: int) -> Seq<(Seq<char>, Seq<char>)>
    decreases k,
{
    if k <= 0 {
        seq![]
    } else {
        match rows[k - 1].previous_ver {
            Some(p) => previous_generations(rows, k - 1).push((rows[k - 1].name@, p@)),
            None => previous_generations(rows, k - 1),
        }
    }
}

/// The (name, version) of every kept previous version, in row order.
pub fn rollback_targets(rows: &Vec<PackageRow>) -> (r: Vec<(String, String)>)
    ensures
        r@.map_values(|p: (String, String)| (p.0@, p.1@)) == previous_generations(rows@, rows@.len() as int),
{
    let mut r: Vec<(String, String)> = Vec::new();
    let mut i: usize = 0;
    while i < rows.len()
        invariant
            i <= rows@.len(),
            r@.map_values(|p: (String, String)| (p.0@, p.1@)) == previous_generations(rows@, i as int),
        decreases rows.len() - i,
    {
        match &rows[i].previous_ver {
            Some(p) => {
                let ghost before = r@;
                r.push((to_string(rows[i].name.as_str()), to_string(p.as_str())));
                assert(r@.map_values(|p: (String, String)| (p.0@, p.1@)) =~= before.map_values(
                    |p: (String, String)| (p.0@, p.1@),
                ).push((rows@[i as int].name@, p@)));
            },
            None => {},
        }
        i = i + 1;
    }
    r
}

/// The row once its previous version `ver` is deleted: the rollback target
/// is cleared if it still is `ver`; otherwise nothing changes (`None`).
pub fn cleared_row(row: &PackageRow, ver: &str) -> (r: Option<PackageRow>)
    ensures
        (row.previous_ver matches Some(p) && p@ == ver@) ==> (r matches Some(n) && n.name == row.name
            && n.version == row.version && n.installed_at == row.installed_at
            && n.requested == row.requested && n.previous_ver is None),
        !(row.previous_ver matches Some(p) && p@ == ver@) ==> r is None,
{
    match &row.previous_ver {
        Some(p) => {
            if crate::text::str_eq(p.as_str(), ver) {
                Some(PackageRow {
                    name: row.name.clone(),
                    version: row.version.clone(),
                    installed_at: row.installed_at,
                    requested: row.requested,
                    previous_ver: None,
                })
            } else {
                None
            }
        },
        None => None,
    }
}

/// The plan of an autoclean.
pub fn autoclean_plan(dirs: usize, bottles: usize) -> (r: String)
    ensures
        r@ == "Will remove "@ + dec_string(dirs as nat) + " previous-generation packages and "@
            + dec_string(bottles as nat) + " orphan bottles"@,
{
    let mut s = to_string("Will remove ");
    push_u64(&mut s, dirs as u64);
    push_str(&mut s, " previous-generation packages and ");
    push_u64(&mut s, bottles as u64);
    push_str(&mut s, " orphan bottles");
    s
}

/// The closing line of an autoclean.
pub fn autoclean_done(dirs: usize, bottles: usize) -> (r: String)
    ensures
        r@ == "Cleaned "@ + dec_string(dirs as nat) + " previous versions and "@ + dec_string(bottles as nat)
            + " bottles"@,
{
    let mut s = to_string("Cleaned ");
    push_u64(&mut s, dirs as u64);
    push_str(&mut s, " previous versions and ");
    push_u64(&mut s, bottles as u64);
    push_str(&mut s, " bottles");
    s
}

} // verus!
