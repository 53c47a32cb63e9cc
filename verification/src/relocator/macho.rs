//! Mach-O relocation: which tools must exist, reading `otool -l` output and
//! the `install_name_tool` / `codesign` invocations that rewrite a binary.
use vstd::prelude::*;
use crate::error::OlmaError;
use crate::text::{
    chars_of, has_prefix_at, lines, lines_chars, push_str, string_of, string_of_range, to_string,
    trim, trim_chars,
};

verus! {

/// `s` with `from` at its start replaced by `to`, if `s` starts with `from`.
pub open spec fn swap_prefix_spec(s: Seq<char>, from: Seq<char>, to: Seq<char>) -> Option<Seq<char>> {
    if from.is_prefix_of(s) {
        Some(to + s.skip(from.len() as int))
    } else {
        None
    }
}

/// Replaces the prefix `from` of `s` by `to`; `None` when `s` does not
/// start with `from`.
pub fn swap_prefix(s: &str, from: &str, to: &str) -> (r: Option<String>)
    ensures
        r is Some <==> swap_prefix_spec(s@, from@, to@) is Some,
        r matches Some(x) ==> swap_prefix_spec(s@, from@, to@) == Some(x@),
{
    match crate::text::strip_prefix(s, from) {
        Some(rest) => {
            let mut out = to_string(to);
            push_str(&mut out, rest.as_str());
            Some(out)
        },
        None => None,
    }
}

/// Swapping a prefix back undoes the swap.
pub proof fn lemma_swap_prefix_round_trip(s: Seq<char>, from: Seq<char>, to: Seq<char>)
    requires
        swap_prefix_spec(s, from, to) is Some,
    ensures
        swap_prefix_spec(swap_prefix_spec(s, from, to)->0, to, from) == Some(s),
{
    let rest = s.skip(from.len() as int);
    let t = to + rest;
    assert(to.is_prefix_of(t));
    assert(t.skip(to.len() as int) =~= rest);
    assert(from + rest =~= s);
}

/// The developer tools that Mach-O relocation runs.
pub fn clt_tools() -> (r: Vec<&'static str>)
    ensures
        r@.len() == 3,
        r@[0]@ == "install_name_tool"@,
        r@[1]@ == "codesign"@,
        r@[2]@ == "otool"@,
{
    let mut r: Vec<&'static str> = Vec::new();
    r.push("install_name_tool");
    r.push("codesign");
    r.push("otool");
    r
}

/// Fails with `MissingXcodeCLT` unless every tool of `clt_tools` was found
/// (`present[i]` tells whether tool `i` is on the `PATH`).
pub fn check_clt_available(present: &[bool]) -> (r: Result<(), OlmaError>)
    ensures
        r is Ok <==> forall|i: int| 0 <= i < present@.len() ==> present@[i],
        r matches Err(e) ==> e is MissingXcodeCLT,
{
    let mut i: usize = 0;
    while i < present.len()
        invariant
            i <= present@.len(),
            forall|j: int| 0 <= j < i ==> present@[j],
        decreases present.len() - i,
    {
        if !present[i] {
            return Err(OlmaError::MissingXcodeCLT);
        }
        i = i + 1;
    }
    Ok(())
}

/// The dylib load commands of a Mach-O file that name paths.
#[derive(Debug)]
pub struct LoadCmds {
    pub id_dylib: Option<String>,
    pub load_dylibs: Vec<String>,
    pub rpaths: Vec<String>,
}

/// The parts of `LoadCmds` as character sequences.
pub struct LoadCmdsModel {
    pub id_dylib: Option<Seq<char>>,
    pub load_dylibs: Seq<Seq<char>>,
    pub rpaths: Seq<Seq<char>>,
}

impl LoadCmds {
    pub open spec fn model(&self) -> LoadCmdsModel {
        LoadCmdsModel {
            id_dylib: match self.id_dylib {
                Some(s) => Some(s@),
                None => None,
            },
            load_dylibs: self.load_dylibs@.map_values(|s: String| s@),
            rpaths: self.rpaths@.map_values(|s: String| s@),
        }
    }
}

/// Which load command the `otool -l` reader is inside.
#[derive(PartialEq, Eq, Structural, Clone, Copy)]
pub enum OtoolState {
    Outside,
    IdDylib,
    LoadDylib,
    Rpath,
}

/// `s` up to the first occurrence of `pat` (all of it if none):
/// `s.split(pat).next()`.
pub open spec fn before_pat(s: Seq<char>, pat: Seq<char>) -> Seq<char>
    decreases s.len(),
{
    if s.len() == 0 || pat.is_prefix_of(s) {
        seq![]
    } else {
        seq![s[0]] + before_pat(s.drop_first(), pat)
    }
}

/// The path of a `name ...` or `path ...` line, without the trailing
/// `(offset N)` annotation.
pub open spec fn load_cmd_value(rest: Seq<char>) -> Seq<char> {
    trim(before_pat(rest, " (offset"@))
}

/// One trimmed line of `otool -l` output applied to the reader.
pub open spec fn otool_step(st: OtoolState, m: LoadCmdsModel, t: Seq<char>) -> (OtoolState, LoadCmdsModel) {
    match st {
        OtoolState::Outside => {
            if "cmd LC_ID_DYLIB"@.is_prefix_of(t) {
                (OtoolState::IdDylib, m)
            } else if "cmd LC_LOAD_DYLIB"@.is_prefix_of(t) {
                (OtoolState::LoadDylib, m)
            } else if "cmd LC_RPATH"@.is_prefix_of(t) {
                (OtoolState::Rpath, m)
            } else {
                (st, m)
            }
        },
        OtoolState::IdDylib => {
            if "name "@.is_prefix_of(t) {
                (OtoolState::Outside, LoadCmdsModel { id_dylib: Some(load_cmd_value(t.skip(5))), ..m })
            } else {
                (st, m)
            }
        },
        OtoolState::LoadDylib => {
            if "name "@.is_prefix_of(t) {
                (OtoolState::Outside, LoadCmdsModel { load_dylibs: m.load_dylibs.push(load_cmd_value(t.skip(5))), ..m })
            } else {
                (st, m)
            }
        },
        OtoolState::Rpath => {
            if "path "@.is_prefix_of(t) {
                (OtoolState::Outside, LoadCmdsModel { rpaths: m.rpaths.push(load_cmd_value(t.skip(5))), ..m })
            } else {
                (st, m)
            }
        },
    }
}

/// The reader after the lines `ls`, each trimmed first.
pub open spec fn otool_run(ls: Seq<Seq<char>>) -> (OtoolState, LoadCmdsModel)
    decreases ls.len(),
{
    if ls.len() == 0 {
        (OtoolState::Outside, LoadCmdsModel { id_dylib: None, load_dylibs: seq![], rpaths: seq![] })
    } else {
        let (st, m) = otool_run(ls.drop_last());
        otool_step(st, m, trim(ls.last()))
    }
}

/// The load commands that `otool -l` printed as `out`.
pub open spec fn otool_parse(out: Seq<char>) -> LoadCmdsModel {
    otool_run(lines(out)).1
}

/// Index in `s[from..]` where `before_pat` stops.
fn before_pat_end(s: &Vec<char>, from: usize, pat: &Vec<char>) -> (r: usize)
    requires
        from <= s@.len(),
    ensures
        from <= r <= s@.len(),
        before_pat(s@.skip(from as int), pat@) == s@.subrange(from as int, r as int),
    decreases s@.len() - from,
{
    if from == s.len() || has_prefix_at(s, from, pat) {
        assert(s@.subrange(from as int, from as int) =~= Seq::<char>::empty());
        from
    } else {
        assert(s@.skip(from as int).drop_first() == s@.skip(from + 1));
        let r = before_pat_end(s, from + 1, pat);
        assert(s@.subrange(from as int, r as int) =~= seq![s@[from as int]] + s@.subrange(from + 1, r as int));
        r
    }
}

/// `load_cmd_value` of `t[5..]`.
fn value_after_keyword(t: &Vec<char>, pat: &Vec<char>) -> (r: String)
    requires
        t@.len() >= 5,
        pat@ == " (offset"@,
    ensures
        r@ == load_cmd_value(t@.skip(5)),
{
    let end = before_pat_end(t, 5, pat);
    let mut part: Vec<char> = Vec::new();
    let mut i: usize = 5;
    while i < end
        invariant
            5 <= i <= end <= t@.len(),
            part@ == t@.subrange(5, i as int),
        decreases end - i,
    {
        part.push(t[i]);
        assert(t@.subrange(5, i + 1) == t@.subrange(5, i as int).push(t@[i as int]));
        i = i + 1;
    }
    let v = trim_chars(&part);
    string_of(&v)
}

/// Reads the dylib id, dependencies and rpaths from the output of `otool -l`.
pub fn parse_otool_l(out: &str) -> (r: LoadCmds)
    ensures
        r.model() == otool_parse(out@),
{
    let chars = chars_of(out);
    let ls = lines_chars(&chars);
    let id_kw = chars_of("cmd LC_ID_DYLIB");
    let load_kw = chars_of("cmd LC_LOAD_DYLIB");
    let rpath_kw = chars_of("cmd LC_RPATH");
    let name_kw = chars_of("name ");
    let path_kw = chars_of("path ");
    let offset = chars_of(" (offset");
    proof {
        reveal_strlit("name ");
        reveal_strlit("path ");
    }
    let mut cmds = LoadCmds { id_dylib: None, load_dylibs: Vec::new(), rpaths: Vec::new() };
    let mut st = OtoolState::Outside;
    let ghost all = ls@.map_values(|l: Vec<char>| l@);
    let mut i: usize = 0;
    assert(all.take(0) =~= Seq::<Seq<char>>::empty());
    assert(cmds.model().load_dylibs =~= Seq::<Seq<char>>::empty());
    assert(cmds.model().rpaths =~= Seq::<Seq<char>>::empty());
    while i < ls.len()
        invariant
            i <= ls@.len(),
            all == ls@.map_values(|l: Vec<char>| l@),
            all == lines(out@),
            id_kw@ == "cmd LC_ID_DYLIB"@,
            load_kw@ == "cmd LC_LOAD_DYLIB"@,
            rpath_kw@ == "cmd LC_RPATH"@,
            name_kw@ == "name "@,
            path_kw@ == "path "@,
            name_kw@.len() == 5,
            path_kw@.len() == 5,
            offset@ == " (offset"@,
            (st, cmds.model()) == otool_run(all.take(i as int)),
        decreases ls.len() - i,
    {
        let t = trim_chars(&ls[i]);
        assert(all.take(i + 1).drop_last() == all.take(i as int));
        assert(all.take(i + 1).last() == ls@[i as int]@);
        assert(t@.skip(0) == t@);
        match st {
            OtoolState::Outside => {
                if has_prefix_at(&t, 0, &id_kw) {
                    st = OtoolState::IdDylib;
                } else if has_prefix_at(&t, 0, &load_kw) {
                    st = OtoolState::LoadDylib;
                } else if has_prefix_at(&t, 0, &rpath_kw) {
                    st = OtoolState::Rpath;
                }
            },
            OtoolState::IdDylib => {
                if has_prefix_at(&t, 0, &name_kw) {
                    let v = value_after_keyword(&t, &offset);
                    cmds.id_dylib = Some(v);
                    st = OtoolState::Outside;
                }
            },
            OtoolState::LoadDylib => {
                if has_prefix_at(&t, 0, &name_kw) {
                    let v = value_after_keyword(&t, &offset);
                    let ghost before = cmds.model();
                    cmds.load_dylibs.push(v);
                    assert(cmds.model().load_dylibs == before.load_dylibs.push(v@));
                    st = OtoolState::Outside;
                }
            },
            OtoolState::Rpath => {
                if has_prefix_at(&t, 0, &path_kw) {
                    let v = value_after_keyword(&t, &offset);
                    let ghost before = cmds.model();
                    cmds.rpaths.push(v);
                    assert(cmds.model().rpaths == before.rpaths.push(v@));
                    st = OtoolState::Outside;
                }
            },
        }
        i = i + 1;
    }
    assert(all.take(ls@.len() as int) == all);
    cmds
}

/// The argument vector of one tool invocation, program first.
pub open spec fn argv_model(v: Seq<Vec<String>>) -> Seq<Seq<Seq<char>>> {
    v.map_values(|a: Vec<String>| a@.map_values(|s: String| s@))
}

/// `install_name_tool` calls that rewrite each path of `ps` starting with
/// `from`, using `flag` (`-change` or `-rpath`).
pub open spec fn path_edits(ps: Seq<Seq<char>>, flag: Seq<char>, path: Seq<char>, from: Seq<char>, to: Seq<char>) -> Seq<Seq<Seq<char>>>
    decreases ps.len(),
{
    if ps.len() == 0 {
        seq![]
    } else {
        let rest = path_edits(ps.drop_last(), flag, path, from, to);
        match swap_prefix_spec(ps.last(), from, to) {
            Some(n) => rest.push(seq!["install_name_tool"@, flag, ps.last(), n, path]),
            None => rest,
        }
    }
}

/// One edit per path that starts with `from`, and for each such path `d`
/// the call `install_name_tool flag d n path` with `n` the swapped path.
pub proof fn lemma_path_edits_exact(ps: Seq<Seq<char>>, flag: Seq<char>, path: Seq<char>, from: Seq<char>, to: Seq<char>)
    ensures
        path_edits(ps, flag, path, from, to).len() == ps.filter(|d: Seq<char>| from.is_prefix_of(d)).len(),
        forall|k: int| 0 <= k < ps.len() && from.is_prefix_of(#[trigger] ps[k]) ==> path_edits(ps, flag, path, from, to).contains(
            seq!["install_name_tool"@, flag, ps[k], to + ps[k].skip(from.len() as int), path],
        ),
    decreases ps.len(),
{
    if ps.len() > 0 {
        let init = ps.drop_last();
        lemma_path_edits_exact(init, flag, path, from, to);
        let e0 = path_edits(init, flag, path, from, to);
        let e = path_edits(ps, flag, path, from, to);
        reveal(Seq::filter);
        assert(ps.filter(|d: Seq<char>| from.is_prefix_of(d)) == if from.is_prefix_of(ps.last()) {
            init.filter(|d: Seq<char>| from.is_prefix_of(d)).push(ps.last())
        } else {
            init.filter(|d: Seq<char>| from.is_prefix_of(d))
        });
        let cmd = |d: Seq<char>| seq!["install_name_tool"@, flag, d, to + d.skip(from.len() as int), path];
        if from.is_prefix_of(ps.last()) {
            assert(e == e0.push(cmd(ps.last())));
        } else {
            assert(e == e0);
        }
        assert forall|k: int| 0 <= k < ps.len() && from.is_prefix_of(#[trigger] ps[k]) implies e.contains(cmd(ps[k])) by {
            if k < ps.len() - 1 {
                assert(init[k] == ps[k]);
                assert(e0.contains(cmd(init[k])));
                let j = choose|j: int| 0 <= j < e0.len() && e0[j] == cmd(init[k]);
                if from.is_prefix_of(ps.last()) {
                    assert(e[j] == e0[j]);
                }
            } else {
                assert(e[e0.len() as int] == cmd(ps[k]));
            }
        }
    }
}

/// Every load command and rpath that starts with `from` is rewritten to
/// start with `to` by its own call (`-change` for a dependency, `-rpath`
/// for an rpath), as many calls as there are such paths; then the file is
/// signed again as the last step.
pub proof fn lemma_macho_edits_cover(m: LoadCmdsModel, path: Seq<char>, from: Seq<char>, to: Seq<char>)
    ensures
        forall|k: int| 0 <= k < m.load_dylibs.len() && from.is_prefix_of(#[trigger] m.load_dylibs[k]) ==> macho_edits(m, path, from, to).contains(
            seq!["install_name_tool"@, "-change"@, m.load_dylibs[k], to + m.load_dylibs[k].skip(from.len() as int), path],
        ),
        forall|k: int| 0 <= k < m.rpaths.len() && from.is_prefix_of(#[trigger] m.rpaths[k]) ==> macho_edits(m, path, from, to).contains(
            seq!["install_name_tool"@, "-rpath"@, m.rpaths[k], to + m.rpaths[k].skip(from.len() as int), path],
        ),
        macho_edits(m, path, from, to).len() == (if m.id_dylib matches Some(id) && from.is_prefix_of(id) { 1int } else { 0int })
            + m.load_dylibs.filter(|d: Seq<char>| from.is_prefix_of(d)).len()
            + m.rpaths.filter(|d: Seq<char>| from.is_prefix_of(d)).len() + 1,
        macho_edits(m, path, from, to).last() == seq!["codesign"@, "--force"@, "--sign"@, "-"@, path],
{
    lemma_path_edits_exact(m.load_dylibs, "-change"@, path, from, to);
    lemma_path_edits_exact(m.rpaths, "-rpath"@, path, from, to);
    let id_edit: Seq<Seq<Seq<char>>> = match m.id_dylib {
        Some(id) => match swap_prefix_spec(id, from, to) {
            Some(n) => seq![seq!["install_name_tool"@, "-id"@, n, path]],
            None => seq![],
        },
        None => seq![],
    };
    let ch = path_edits(m.load_dylibs, "-change"@, path, from, to);
    let rp = path_edits(m.rpaths, "-rpath"@, path, from, to);
    let sign = seq![seq!["codesign"@, "--force"@, "--sign"@, "-"@, path]];
    let all = macho_edits(m, path, from, to);
    assert(all == id_edit + ch + rp + sign);
    assert forall|k: int| 0 <= k < m.load_dylibs.len() && from.is_prefix_of(#[trigger] m.load_dylibs[k]) implies all.contains(
        seq!["install_name_tool"@, "-change"@, m.load_dylibs[k], to + m.load_dylibs[k].skip(from.len() as int), path]) by {
        let c = seq!["install_name_tool"@, "-change"@, m.load_dylibs[k], to + m.load_dylibs[k].skip(from.len() as int), path];
        assert(ch.contains(c));
        let j = choose|j: int| 0 <= j < ch.len() && ch[j] == c;
        assert(all[id_edit.len() + j] == c);
    }
    assert forall|k: int| 0 <= k < m.rpaths.len() && from.is_prefix_of(#[trigger] m.rpaths[k]) implies all.contains(
        seq!["install_name_tool"@, "-rpath"@, m.rpaths[k], to + m.rpaths[k].skip(from.len() as int), path]) by {
        let c = seq!["install_name_tool"@, "-rpath"@, m.rpaths[k], to + m.rpaths[k].skip(from.len() as int), path];
        assert(rp.contains(c));
        let j = choose|j: int| 0 <= j < rp.len() && rp[j] == c;
        assert(all[id_edit.len() + ch.len() + j] == c);
    }
}

/// Every tool invocation that relocates the Mach-O file at `path` from
/// prefix `from` to `to`: the dylib id, the dependencies, the rpaths, then
/// an ad-hoc signature.
pub open spec fn macho_edits(m: LoadCmdsModel, path: Seq<char>, from: Seq<char>, to: Seq<char>) -> Seq<Seq<Seq<char>>> {
    let id_edit: Seq<Seq<Seq<char>>> = match m.id_dylib {
        Some(id) => match swap_prefix_spec(id, from, to) {
            Some(n) => seq![seq!["install_name_tool"@, "-id"@, n, path]],
            None => seq![],
        },
        None => seq![],
    };
    id_edit + path_edits(m.load_dylibs, "-change"@, path, from, to) + path_edits(m.rpaths, "-rpath"@, path, from, to)
        + seq![seq!["codesign"@, "--force"@, "--sign"@, "-"@, path]]
}

fn argv_push(out: &mut Vec<Vec<String>>, args: Vec<String>)
    ensures
        argv_model(final(out)@) == argv_model(old(out)@).push(args@.map_values(|s: String| s@)),
{
    let ghost before = out@;
    out.push(args);
    assert(out@ == before.push(args));
}

fn path_edits_exec(out: &mut Vec<Vec<String>>, ps: &Vec<String>, flag: &str, path: &str, from: &str, to: &str)
    ensures
        argv_model(final(out)@) == argv_model(old(out)@) + path_edits(ps@.map_values(|s: String| s@), flag@, path@, from@, to@),
{
    let ghost pv = ps@.map_values(|s: String| s@);
    let mut i: usize = 0;
    assert(pv.take(0) =~= Seq::<Seq<char>>::empty());
    assert(argv_model(out@) == argv_model(old(out)@) + Seq::<Seq<Seq<char>>>::empty());
    while i < ps.len()
        invariant
            i <= ps@.len(),
            pv == ps@.map_values(|s: String| s@),
            argv_model(out@) == argv_model(old(out)@) + path_edits(pv.take(i as int), flag@, path@, from@, to@),
        decreases ps.len() - i,
    {
        assert(pv.take(i + 1).drop_last() == pv.take(i as int));
        assert(pv.take(i + 1).last() == ps@[i as int]@);
        match swap_prefix(ps[i].as_str(), from, to) {
            Some(n) => {
                let mut args: Vec<String> = Vec::new();
                args.push(to_string("install_name_tool"));
                args.push(to_string(flag));
                args.push(to_string(ps[i].as_str()));
                args.push(n);
                args.push(to_string(path));
                let ghost a = args@.map_values(|s: String| s@);
                assert(a =~= seq!["install_name_tool"@, flag@, ps@[i as int]@, a[3], path@]);
                argv_push(out, args);
            },
            None => {},
        }
        i = i + 1;
    }
    assert(pv.take(ps@.len() as int) == pv);
}

/// The tool invocations (program first) that relocate the Mach-O file at
/// `path` from prefix `from` to `to`, in the order they must run.
pub fn macho_commands(cmds: &LoadCmds, path: &str, from: &str, to: &str) -> (r: Vec<Vec<String>>)
    ensures
        argv_model(r@) == macho_edits(cmds.model(), path@, from@, to@),
        forall|k: int| 0 <= k < cmds.load_dylibs@.len() && from@.is_prefix_of(#[trigger] cmds.load_dylibs@[k]@) ==> argv_model(r@).contains(
            seq!["install_name_tool"@, "-change"@, cmds.load_dylibs@[k]@, to@ + cmds.load_dylibs@[k]@.skip(from@.len() as int), path@],
        ),
        forall|k: int| 0 <= k < cmds.rpaths@.len() && from@.is_prefix_of(#[trigger] cmds.rpaths@[k]@) ==> argv_model(r@).contains(
            seq!["install_name_tool"@, "-rpath"@, cmds.rpaths@[k]@, to@ + cmds.rpaths@[k]@.skip(from@.len() as int), path@],
        ),
        argv_model(r@).len() == (if cmds.model().id_dylib matches Some(id) && from@.is_prefix_of(id) { 1int } else { 0int })
            + cmds.model().load_dylibs.filter(|d: Seq<char>| from@.is_prefix_of(d)).len()
            + cmds.model().rpaths.filter(|d: Seq<char>| from@.is_prefix_of(d)).len() + 1,
{
    proof {
        let m = cmds.model();
        lemma_macho_edits_cover(m, path@, from@, to@);
        assert forall|k: int| 0 <= k < cmds.load_dylibs@.len() implies #[trigger] cmds.load_dylibs@[k]@ == m.load_dylibs[k] by {}
        assert forall|k: int| 0 <= k < cmds.rpaths@.len() implies #[trigger] cmds.rpaths@[k]@ == m.rpaths[k] by {}
    }
    let mut out: Vec<Vec<String>> = Vec::new();
    match &cmds.id_dylib {
        Some(id) => match swap_prefix(id.as_str(), from, to) {
            Some(n) => {
                let mut args: Vec<String> = Vec::new();
                args.push(to_string("install_name_tool"));
                args.push(to_string("-id"));
                args.push(n);
                args.push(to_string(path));
                let ghost a = args@.map_values(|s: String| s@);
                assert(a =~= seq!["install_name_tool"@, "-id"@, a[2], path@]);
                argv_push(&mut out, args);
            },
            None => {},
        },
        None => {},
    }
    let ghost id_part = argv_model(out@);
    assert(id_part =~= match cmds.model().id_dylib {
        Some(id) => match swap_prefix_spec(id, from@, to@) {
            Some(n) => seq![seq!["install_name_tool"@, "-id"@, n, path@]],
            None => Seq::<Seq<Seq<char>>>::empty(),
        },
        None => Seq::<Seq<Seq<char>>>::empty(),
    });
    path_edits_exec(&mut out, &cmds.load_dylibs, "-change", path, from, to);
    path_edits_exec(&mut out, &cmds.rpaths, "-rpath", path, from, to);
    let mut sign: Vec<String> = Vec::new();
    sign.push(to_string("codesign"));
    sign.push(to_string("--force"));
    sign.push(to_string("--sign"));
    sign.push(to_string("-"));
    sign.push(to_string(path));
    let ghost sv = sign@.map_values(|s: String| s@);
    assert(sv =~= seq!["codesign"@, "--force"@, "--sign"@, "-"@, path@]);
    argv_push(&mut out, sign);
    proof {
        let m = cmds.model();
        let e = macho_edits(m, path@, from@, to@);
        assert(argv_model(out@) =~= e);
    }
    out
}

} // verus!
