//! Choosing the default member of a package family (`python`, `python@3.11`, ...).
use vstd::prelude::*;
use crate::error::OlmaError;
use crate::state::packages::PackageRow;
use crate::state::transactions::PackageChange;
use crate::text::{chars_of, is_digit, lemma_lex_order, lex_less, lex_lt, push_str, str_eq, string_of_range, to_string};

verus! {

/// The family of a package name: the characters before the first `@`.
pub open spec fn family(s: Seq<char>) -> Seq<char>
    decreases s.len(),
{
    if s.len() == 0 || s[0] == '@' {
        seq![]
    } else {
        seq![s[0]] + family(s.drop_first())
    }
}

/// A family is a prefix of the name and holds no `@`.
pub proof fn lemma_family_shape(s: Seq<char>)
    ensures
        family(s).is_prefix_of(s),
        !family(s).contains('@'),
        !s.contains('@') ==> family(s) == s,
    decreases s.len(),
{
    if s.len() > 0 && s[0] != '@' {
        lemma_family_shape(s.drop_first());
        let f = family(s.drop_first());
        assert(family(s) == seq![s[0]] + f);
        assert forall|i: int| 0 <= i < family(s).len() implies family(s)[i] == s[i] by {
            if i > 0 {
                assert(family(s)[i] == f[i - 1]);
            }
        }
        if family(s).contains('@') {
            let i = choose|i: int| 0 <= i < family(s).len() && family(s)[i] == '@';
            assert(i > 0 ==> f[i - 1] == '@');
        }
        if !s.contains('@') {
            assert(!s.drop_first().contains('@')) by {
                if s.drop_first().contains('@') {
                    let i = choose|i: int| 0 <= i < s.drop_first().len() && s.drop_first()[i] == '@';
                    assert(s[i + 1] == '@');
                }
            }
            assert(seq![s[0]] + s.drop_first() == s);
        }
    } else if s.len() > 0 {
        assert(s.contains('@')) by {
            assert(s[0] == '@');
        }
    }
}

/// Taking the family of a family changes nothing.
pub proof fn lemma_family_idempotent(s: Seq<char>)
    ensures
        family(family(s)) == family(s),
{
    lemma_family_shape(s);
    lemma_family_shape(family(s));
}

/// The family of `name`: everything before the first `@`.
pub fn family_of(name: &str) -> (r: String)
    ensures
        r@ == family(name@),
{
    let cs = chars_of(name);
    let mut i: usize = 0;
    assert(cs@.skip(0) == cs@);
    assert(cs@.take(0) + family(cs@) == family(cs@));
    while i < cs.len() && cs[i] != '@'
        invariant
            i <= cs@.len(),
            cs@ == name@,
            family(name@) == cs@.take(i as int) + family(cs@.skip(i as int)),
        decreases cs.len() - i,
    {
        assert(cs@.skip(i as int).drop_first() == cs@.skip(i + 1));
        assert(cs@.take(i + 1) == cs@.take(i as int) + seq![cs@[i as int]]);
        i = i + 1;
    }
    assert(family(cs@.skip(i as int)) == Seq::<char>::empty());
    assert(cs@.take(i as int) + Seq::<char>::empty() == cs@.take(i as int));
    assert(cs@.subrange(0, i as int) == cs@.take(i as int));
    string_of_range(&cs, 0, i)
}

/// `stem` is `-` followed by digits and dots only.
pub open spec fn version_suffix(stem: Seq<char>) -> bool {
    stem.len() > 0 && stem[0] == '-' && forall|i: int| 1 <= i < stem.len() ==> is_digit(#[trigger] stem[i]) || stem[i] == '.'
}

/// The name a linked executable gets: `family` for `family-<version>`,
/// the executable's own name otherwise.
pub open spec fn stripped_name(exe: Seq<char>, family: Seq<char>) -> Seq<char> {
    if family.is_prefix_of(exe) && version_suffix(exe.skip(family.len() as int)) {
        family
    } else {
        exe
    }
}

/// A linked executable is named either like its family or as it was, and
/// stripping a second time changes nothing.
pub proof fn lemma_stripped_name_choice(exe: Seq<char>, family: Seq<char>)
    ensures
        stripped_name(exe, family) == family || stripped_name(exe, family) == exe,
        !family.is_prefix_of(exe) ==> stripped_name(exe, family) == exe,
        stripped_name(stripped_name(exe, family), family) == stripped_name(exe, family),
{
    assert(family.is_prefix_of(family));
    assert(family.skip(family.len() as int).len() == 0);
}

/// Drops a `-<version>` suffix that follows the family name.
pub fn strip_family_suffix(exe: &str, family: &str) -> (r: String)
    ensures
        r@ == stripped_name(exe@, family@),
{
    let e = chars_of(exe);
    let f = chars_of(family);
    if f.len() > e.len() || f.len() == e.len() {
        if f.len() == e.len() {
            assert(e@.skip(f@.len() as int).len() == 0);
        }
        return to_string(exe);
    }
    let mut i: usize = 0;
    while i < f.len()
        invariant
            i <= f@.len() < e@.len(),
            e@ == exe@,
            f@ == family@,
            forall|j: int| 0 <= j < i ==> e@[j] == f@[j],
        decreases f.len() - i,
    {
        if e[i] != f[i] {
            return to_string(exe);
        }
        i = i + 1;
    }
    assert(f@.is_prefix_of(e@));
    let ghost stem = e@.skip(f@.len() as int);
    if e[f.len()] != '-' {
        return to_string(exe);
    }
    let mut k: usize = f.len() + 1;
    while k < e.len()
        invariant
            f@.len() < k <= e@.len(),
            e@ == exe@,
            f@ == family@,
            stem == e@.skip(f@.len() as int),
            forall|j: int| 1 <= j < k - f@.len() ==> is_digit(#[trigger] stem[j]) || stem[j] == '.',
        decreases e.len() - k,
    {
        let c = e[k];
        if !(('0' <= c && c <= '9') || c == '.') {
            assert(stem[k - f@.len()] == c);
            assert(!(is_digit(stem[k - f@.len()]) || stem[k - f@.len()] == '.'));
            return to_string(exe);
        }
        k = k + 1;
    }
    to_string(family)
}

/// Some row is named `n`.
pub open spec fn named(rows: Seq<PackageRow>, n: Seq<char>) -> bool {
    exists|j: int| 0 <= j < rows.len() && rows[j].name@ == n
}

/// Row `i` is the first row named `n`.
pub open spec fn first_named(rows: Seq<PackageRow>, n: Seq<char>, i: int) -> bool {
    0 <= i < rows.len() && rows[i].name@ == n && forall|j: int| 0 <= j < i ==> rows[j].name@ != n
}

/// The row belongs to the family `fam`.
pub open spec fn in_family(r: PackageRow, fam: Seq<char>) -> bool {
    family(r.name@) == fam
}

/// One of the first `n` rows belongs to the family `fam`.
pub open spec fn has_member(rows: Seq<PackageRow>, fam: Seq<char>, n: int) -> bool {
    exists|j: int| 0 <= j < n && in_family(#[trigger] rows[j], fam)
}

/// Row `i` is the first of the first `n` rows that belongs to `fam` and is
/// named `fam` itself.
pub open spec fn first_bare(rows: Seq<PackageRow>, fam: Seq<char>, i: int, n: int) -> bool {
    &&& 0 <= i < n
    &&& in_family(rows[i], fam) && rows[i].name@ == fam
    &&& forall|j: int| 0 <= j < i ==> !(in_family(#[trigger] rows[j], fam) && rows[j].name@ == fam)
}

/// Among the first `n` rows, row `i` is the first member of `fam` whose name
/// no other member's name follows.
pub open spec fn first_greatest(rows: Seq<PackageRow>, fam: Seq<char>, i: int, n: int) -> bool {
    &&& 0 <= i < n
    &&& in_family(rows[i], fam)
    &&& forall|j: int| 0 <= j < n && in_family(#[trigger] rows[j], fam) ==> !lex_lt(rows[i].name@, rows[j].name@)
    &&& forall|j: int| 0 <= j < i && in_family(#[trigger] rows[j], fam) ==> lex_lt(rows[j].name@, rows[i].name@)
}

/// The message for a family with no installed member.
pub open spec fn no_member_message(fam: Seq<char>) -> Seq<char> {
    "no installed package in family "@ + fam
}

/// The message for a versioned target that is not installed.
pub open spec fn not_installed_message(target: Seq<char>) -> Seq<char> {
    target + " is not installed; run `olma add "@ + target + "` first"@
}

/// The installed row that `target` designates within `family`: the row named
/// `target`; else, for a target without `@`, the member named like the
/// family, or else the member with the greatest name.
pub fn resolve_choice(rows: &[PackageRow], target: &str, family: &str) -> (r: Result<PackageRow, OlmaError>)
    ensures
        named(rows@, target@) ==> exists|i: int| first_named(rows@, target@, i) && r == Ok::<PackageRow, OlmaError>(rows@[i]),
        !named(rows@, target@) && !has_member(rows@, family@, rows@.len() as int) ==>
            (r matches Err(OlmaError::Other(m)) && m@ == no_member_message(family@)),
        !named(rows@, target@) && has_member(rows@, family@, rows@.len() as int) && target@.contains('@') ==>
            (r matches Err(OlmaError::Other(m)) && m@ == not_installed_message(target@)),
        !named(rows@, target@) && !target@.contains('@') && (exists|i: int| first_bare(rows@, family@, i, rows@.len() as int)) ==>
            exists|i: int| first_bare(rows@, family@, i, rows@.len() as int) && r == Ok::<PackageRow, OlmaError>(rows@[i]),
        !named(rows@, target@) && !target@.contains('@') && has_member(rows@, family@, rows@.len() as int)
            && !(exists|i: int| first_bare(rows@, family@, i, rows@.len() as int)) ==>
            exists|i: int| first_greatest(rows@, family@, i, rows@.len() as int) && r == Ok::<PackageRow, OlmaError>(rows@[i]),
{
    let mut i: usize = 0;
    while i < rows.len()
        invariant
            i <= rows@.len(),
            forall|j: int| 0 <= j < i ==> rows@[j].name@ != target@,
        decreases rows.len() - i,
    {
        if str_eq(rows[i].name.as_str(), target) {
            let r = rows[i].clone();
            assert(first_named(rows@, target@, i as int));
            return Ok(r);
        }
        i = i + 1;
    }
    let mut any = false;
    let mut best: usize = 0;
    let mut bare: Option<usize> = None;
    let mut j: usize = 0;
    while j < rows.len()
        invariant
            j <= rows@.len(),
            any == has_member(rows@, family@, j as int),
            any ==> first_greatest(rows@, family@, best as int, j as int),
            match bare {
                Some(q) => first_bare(rows@, family@, q as int, j as int),
                None => forall|q: int| 0 <= q < j ==> !(in_family(#[trigger] rows@[q], family@) && rows@[q].name@ == family@),
            },
        decreases rows.len() - j,
    {
        let f = family_of(rows[j].name.as_str());
        if str_eq(f.as_str(), family) {
            let ghost c = rows@[j as int].name@;
            if !any {
                any = true;
                best = j;
                assert(has_member(rows@, family@, j + 1));
                proof {
                    lemma_lex_order(c, c, c);
                }
            } else if lex_less(rows[best].name.as_str(), rows[j].name.as_str()) {
                let ghost b = rows@[best as int].name@;
                proof {
                    assert forall|q: int| 0 <= q < j + 1 && in_family(#[trigger] rows@[q], family@) implies
                        !lex_lt(c, rows@[q].name@) && (q < j ==> lex_lt(rows@[q].name@, c)) by {
                        lemma_lex_order(rows@[q].name@, b, c);
                        lemma_lex_order(c, rows@[q].name@, c);
                        lemma_lex_order(rows@[q].name@, c, c);
                        if q < j {
                            lemma_lex_order(rows@[q].name@, b, b);
                            lemma_lex_order(b, rows@[q].name@, b);
                        }
                    }
                }
                best = j;
            } else {
                proof {
                    lemma_lex_order(c, c, c);
                }
            }
            if bare.is_none() && str_eq(rows[j].name.as_str(), family) {
                bare = Some(j);
            }
        }
        j = j + 1;
    }
    if !any {
        let mut m = to_string("no installed package in family ");
        push_str(&mut m, family);
        return Err(OlmaError::Other(m));
    }
    let has_at = has_char(target, '@');
    if !has_at {
        match bare {
            Some(q) => {
                return Ok(rows[q].clone());
            },
            None => {
                assert(!(exists|i: int| first_bare(rows@, family@, i, rows@.len() as int)));
                return Ok(rows[best].clone());
            },
        }
    }
    let mut m = to_string(target);
    push_str(&mut m, " is not installed; run `olma add ");
    push_str(&mut m, target);
    push_str(&mut m, "` first");
    Err(OlmaError::Other(m))
}

/// Whether `s` holds the character `c`.
pub fn has_char(s: &str, c: char) -> (r: bool)
    ensures
        r == s@.contains(c),
{
    let cs = chars_of(s);
    let mut i: usize = 0;
    while i < cs.len()
        invariant
            i <= cs@.len(),
            cs@ == s@,
            forall|j: int| 0 <= j < i ==> cs@[j] != c,
        decreases cs.len() - i,
    {
        if cs[i] == c {
            return true;
        }
        i = i + 1;
    }
    false
}

/// The current default of `family`: the first row named like the family.
pub fn current_default(rows: &[PackageRow], family: &str) -> (r: Option<PackageRow>)
    ensures
        named(rows@, family@) ==> exists|i: int| first_named(rows@, family@, i) && r == Some(rows@[i]),
        !named(rows@, family@) ==> r is None,
{
    let mut i: usize = 0;
    while i < rows.len()
        invariant
            i <= rows@.len(),
            forall|j: int| 0 <= j < i ==> rows@[j].name@ != family@,
        decreases rows.len() - i,
    {
        if str_eq(rows[i].name.as_str(), family) {
            let r = rows[i].clone();
            assert(first_named(rows@, family@, i as int));
            return Some(r);
        }
        i = i + 1;
    }
    None
}

/// `name:version`, the way a default change names a package.
pub open spec fn tagged(r: PackageRow) -> Seq<char> {
    r.name@ + ":"@ + r.version@
}

/// Writes `name:version` of `r`.
fn tagged_of(r: &PackageRow) -> (t: String)
    ensures
        t@ == tagged(*r),
{
    let mut t = to_string(r.name.as_str());
    push_str(&mut t, ":");
    push_str(&mut t, r.version.as_str());
    t
}

/// Whether `chosen` already is the default (`current`) of its family.
pub fn is_current(current: &Option<PackageRow>, chosen: &PackageRow) -> (r: bool)
    ensures
        r == (current matches Some(c) && c.name@ == chosen.name@),
{
    match current {
        Some(c) => str_eq(c.name.as_str(), chosen.name.as_str()),
        None => false,
    }
}

/// The logged change of making `chosen` the default of `family`, replacing
/// `current` (recorded as an empty version when there was none).
pub fn default_change(family: &str, current: &Option<PackageRow>, chosen: &PackageRow) -> (c: PackageChange)
    ensures
        c.name@ == family@,
        c.from_version matches Some(f) && f@ == (match *current {
            Some(r) => tagged(r),
            None => Seq::<char>::empty(),
        }),
        c.to_version matches Some(t) && t@ == tagged(*chosen),
        c.requested,
{
    let from = match current {
        Some(r) => tagged_of(r),
        None => String::new(),
    };
    PackageChange {
        name: to_string(family),
        from_version: Some(from),
        to_version: Some(tagged_of(chosen)),
        requested: true,
    }
}

} // verus!
