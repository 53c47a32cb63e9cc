//! Linking a package's executables into `<root>/bin`, and what decides each
//! link.
use vstd::prelude::*;
use crate::config::{join, join_path};
use crate::text::{chars_of, seq_eq, split, split_on, string_of, to_string};

verus! {

/// What `link_bin` did.
#[derive(Debug, Clone)]
pub struct LinkStats {
    pub linked: Vec<String>,
    pub skipped_collisions: Vec<String>,
}

impl LinkStats {
    /// Nothing linked, nothing skipped.
    pub fn new() -> (r: Self)
        ensures
            r.linked@.len() == 0,
            r.skipped_collisions@.len() == 0,
    {
        LinkStats { linked: Vec::new(), skipped_collisions: Vec::new() }
    }
}

/// A normal path component: neither the root, `.` nor `..`.
pub open spec fn is_normal(c: Seq<char>) -> bool {
    c != "/"@ && c != "."@ && c != ".."@
}

/// The pieces of `ps` that name something: not empty and not `.`.
pub open spec fn kept_parts(ps: Seq<Seq<char>>) -> Seq<Seq<char>>
    decreases ps.len(),
{
    if ps.len() == 0 {
        seq![]
    } else if ps.last().len() == 0 || ps.last() == "."@ {
        kept_parts(ps.drop_last())
    } else {
        kept_parts(ps.drop_last()).push(ps.last())
    }
}

/// `Path::components` on Unix: `/` for the root, then the non-empty pieces
/// between slashes other than `.`, except that a leading `.` is kept.
pub open spec fn components(p: Seq<char>) -> Seq<Seq<char>> {
    let ps = split(p, "/"@);
    if p.len() > 0 && p[0] == '/' {
        seq!["/"@] + kept_parts(ps.drop_first())
    } else if ps[0] == "."@ {
        seq!["."@] + kept_parts(ps.drop_first())
    } else {
        kept_parts(ps)
    }
}

/// `Path::starts_with`: the components of `base` begin those of `p`.
pub open spec fn path_starts_with(p: Seq<char>, base: Seq<char>) -> bool {
    components(base).is_prefix_of(components(p))
}

/// `kept_parts` of `ps[from..]`, appended to `out`.
fn keep_parts(out: &mut Vec<Vec<char>>, ps: &Vec<Vec<char>>, from: usize, dot: &Vec<char>)
    requires
        from <= ps@.len(),
        dot@ == "."@,
    ensures
        final(out)@.map_values(|c: Vec<char>| c@) == old(out)@.map_values(|c: Vec<char>| c@) + kept_parts(
            ps@.map_values(|c: Vec<char>| c@).skip(from as int),
        ),
{
    let ghost all = ps@.map_values(|c: Vec<char>| c@).skip(from as int);
    let mut i = from;
    assert(all.take(0) =~= Seq::<Seq<char>>::empty());
    assert(old(out)@.map_values(|c: Vec<char>| c@) + kept_parts(all.take(0)) == old(out)@.map_values(|c: Vec<char>| c@));
    while i < ps.len()
        invariant
            from <= i <= ps@.len(),
            dot@ == "."@,
            all == ps@.map_values(|c: Vec<char>| c@).skip(from as int),
            out@.map_values(|c: Vec<char>| c@) == old(out)@.map_values(|c: Vec<char>| c@) + kept_parts(all.take(i - from)),
        decreases ps.len() - i,
    {
        assert(all.take(i - from + 1).drop_last() == all.take(i - from));
        assert(all.take(i - from + 1).last() == ps@[i as int]@);
        if ps[i].len() > 0 && !seq_eq(&ps[i], dot) {
            let ghost before = out@.map_values(|c: Vec<char>| c@);
            let mut c: Vec<char> = Vec::new();
            let mut j: usize = 0;
            while j < ps[i].len()
                invariant
                    i < ps@.len(),
                    j <= ps@[i as int]@.len(),
                    c@ == ps@[i as int]@.take(j as int),
                decreases ps@[i as int]@.len() - j,
            {
                c.push(ps[i][j]);
                assert(ps@[i as int]@.take(j + 1) == ps@[i as int]@.take(j as int).push(ps@[i as int]@[j as int]));
                j = j + 1;
            }
            assert(ps@[i as int]@.take(ps@[i as int]@.len() as int) == ps@[i as int]@);
            let ghost cv = c@;
            out.push(c);
            assert(out@.map_values(|c: Vec<char>| c@) == before.push(cv));
        }
        i = i + 1;
    }
    assert(all.take(ps@.len() - from) == all);
}

/// The components of `p`.
pub fn components_of(p: &str) -> (r: Vec<Vec<char>>)
    ensures
        r@.map_values(|c: Vec<char>| c@) == components(p@),
{
    let cs = chars_of(p);
    let slash = chars_of("/");
    let dot = chars_of(".");
    proof {
        reveal_strlit("/");
        reveal_strlit(".");
    }
    let ps = split_on(&cs, &slash);
    let ghost pv = ps@.map_values(|c: Vec<char>| c@);
    assert(pv[0] == ps@[0]@);
    let mut out: Vec<Vec<char>> = Vec::new();
    if cs.len() > 0 && cs[0] == '/' {
        out.push(slash);
        assert(pv.skip(1) == pv.drop_first());
        keep_parts(&mut out, &ps, 1, &dot);
    } else if seq_eq(&ps[0], &dot) {
        out.push(dot.clone());
        assert(pv.skip(1) == pv.drop_first());
        keep_parts(&mut out, &ps, 1, &dot);
    } else {
        assert(pv.skip(0) == pv);
        keep_parts(&mut out, &ps, 0, &dot);
    }
    assert(out@.map_values(|c: Vec<char>| c@) =~= components(p@));
    out
}

/// `Path::starts_with`.
pub fn starts_with_path(p: &str, base: &str) -> (r: bool)
    ensures
        r == path_starts_with(p@, base@),
{
    let pc = components_of(p);
    let bc = components_of(base);
    let ghost pv = pc@.map_values(|c: Vec<char>| c@);
    let ghost bv = bc@.map_values(|c: Vec<char>| c@);
    assert(bv.len() == bc@.len() && pv.len() == pc@.len());
    assert(pv == components(p@) && bv == components(base@));
    if bc.len() > pc.len() {
        assert(!bv.is_prefix_of(pv));
        return false;
    }
    let mut i: usize = 0;
    while i < bc.len()
        invariant
            i <= bc@.len() <= pc@.len(),
            pv == pc@.map_values(|c: Vec<char>| c@),
            bv == bc@.map_values(|c: Vec<char>| c@),
            pv == components(p@),
            bv == components(base@),
            forall|j: int| 0 <= j < i ==> bv[j] == pv[j],
        decreases bc.len() - i,
    {
        if !seq_eq(&bc[i], &pc[i]) {
            assert(bv[i as int] != pv[i as int]);
            assert(pv.subrange(0, bv.len() as int)[i as int] != bv[i as int]);
            return false;
        }
        i = i + 1;
    }
    assert(pv.subrange(0, bv.len() as int) =~= bv);
    true
}

/// Where a symlink in `bin` that holds `target` points: `target` itself when
/// absolute, else resolved against `bin`.
pub fn resolve_link(bin: &str, target: &str) -> (r: String)
    ensures
        r@ == join(bin@, target@),
{
    join_path(bin, target)
}

/// What is at the place of a link before it is made.
pub enum ExistingLink {
    /// Nothing.
    Absent,
    /// A symlink holding this target.
    Symlink(String),
    /// Something that is not a symlink.
    Other,
}

/// What to do at the place of a link.
#[derive(Debug, Clone, Copy, PartialEq, Eq, Structural)]
pub enum LinkAction {
    /// Create the link.
    Link,
    /// Remove the old symlink of this same package, then create the link.
    Replace,
    /// Leave what is there and record a collision.
    Skip,
}

/// The decision for one executable: a symlink into `package_dir` is ours
/// and is replaced; anything else that is there is a collision.
pub open spec fn link_action_spec(existing: ExistingLink, bin: Seq<char>, package_dir: Seq<char>) -> LinkAction {
    match existing {
        ExistingLink::Absent => LinkAction::Link,
        ExistingLink::Symlink(t) => if path_starts_with(join(bin, t@), package_dir) {
            LinkAction::Replace
        } else {
            LinkAction::Skip
        },
        ExistingLink::Other => LinkAction::Skip,
    }
}

/// Decides what to do where an executable of `package_dir` is to be linked
/// into `bin`.
pub fn link_action(existing: &ExistingLink, bin: &str, package_dir: &str) -> (r: LinkAction)
    ensures
        r == link_action_spec(*existing, bin@, package_dir@),
{
    match existing {
        ExistingLink::Absent => LinkAction::Link,
        ExistingLink::Symlink(t) => {
            let abs = resolve_link(bin, t.as_str());
            if starts_with_path(abs.as_str(), package_dir) {
                LinkAction::Replace
            } else {
                LinkAction::Skip
            }
        },
        ExistingLink::Other => LinkAction::Skip,
    }
}

/// Records the outcome for executable `name` in `stats`.
pub fn record_link(stats: &mut LinkStats, name: String, action: LinkAction)
    ensures
        action is Skip ==> final(stats).skipped_collisions@ == old(stats).skipped_collisions@.push(name)
            && final(stats).linked@ == old(stats).linked@,
        !(action is Skip) ==> final(stats).linked@ == old(stats).linked@.push(name)
            && final(stats).skipped_collisions@ == old(stats).skipped_collisions@,
{
    match action {
        LinkAction::Skip => stats.skipped_collisions.push(name),
        _ => stats.linked.push(name),
    }
}

/// The name of the package that owns `package_dir` (`<...>/<name>/<version>`):
/// the component before the last, when it is a normal one.
pub open spec fn package_name_spec(package_dir: Seq<char>) -> Option<Seq<char>> {
    let c = components(package_dir);
    if c.len() >= 2 && is_normal(c[c.len() - 2]) {
        Some(c[c.len() - 2])
    } else {
        None
    }
}

/// The package name in a package directory: `package_dir.parent().file_name()`.
pub fn package_name_of(package_dir: &str) -> (r: Option<String>)
    ensures
        r is Some <==> package_name_spec(package_dir@) is Some,
        r matches Some(n) ==> package_name_spec(package_dir@) == Some(n@),
{
    let c = components_of(package_dir);
    let ghost cv = c@.map_values(|x: Vec<char>| x@);
    if c.len() < 2 {
        return None;
    }
    let k = c.len() - 2;
    assert(cv[k as int] == c@[k as int]@);
    let root = chars_of("/");
    let dot = chars_of(".");
    let dotdot = chars_of("..");
    if seq_eq(&c[k], &root) || seq_eq(&c[k], &dot) || seq_eq(&c[k], &dotdot) {
        None
    } else {
        Some(string_of(&c[k]))
    }
}

} // verus!
