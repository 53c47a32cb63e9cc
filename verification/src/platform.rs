//! The host platform as Homebrew bottles name it.
use vstd::prelude::*;
use crate::error::OlmaError;
use crate::text::{all_digits, chars_of, dec_value, parse_u32, parse_u32_spec, push_str, split, split_from, split_on, to_string};

verus! {

/// The CPU architecture.
#[derive(Debug, Clone, Copy, PartialEq, Eq, Structural)]
pub enum Arch {
    Arm64,
    X64,
}

/// The name of an architecture in bottle tags.
pub open spec fn arch_name(a: Arch) -> Seq<char> {
    match a {
        Arch::Arm64 => "arm64"@,
        Arch::X64 => "x86_64"@,
    }
}

impl Arch {
    /// The architecture's name in bottle tags: `arm64` or `x86_64`.
    pub fn as_bottle_str(&self) -> (r: &'static str)
        ensures
            r@ == arch_name(*self),
    {
        match self {
            Arch::Arm64 => "arm64",
            Arch::X64 => "x86_64",
        }
    }
}

/// The codename of a macOS major version.
pub open spec fn codename_of_major(major: u32) -> Option<Seq<char>> {
    if major == 11 {
        Some("bigsur"@)
    } else if major == 12 {
        Some("monterey"@)
    } else if major == 13 {
        Some("ventura"@)
    } else if major == 14 {
        Some("sonoma"@)
    } else if major == 15 {
        Some("sequoia"@)
    } else if major == 26 {
        Some("tahoe"@)
    } else {
        None
    }
}

/// The codename of a macOS product version such as `14.5.1`: the part
/// before the first dot is the major version.
pub open spec fn codename_of_version(v: Seq<char>) -> Option<Seq<char>> {
    match parse_u32_spec(split(v, "."@)[0]) {
        Some(major) => codename_of_major(major),
        None => None,
    }
}

/// The piece of `cur + rest` before the first dot, when `rest` starts with
/// `x`, which holds no dot, followed by a dot or by nothing.
proof fn lemma_split_head(cur: Seq<char>, x: Seq<char>, y: Seq<char>, dotted: bool)
    requires
        !x.contains('.'),
    ensures
        split_from(cur, if dotted { x + "."@ + y } else { x }, "."@)[0] == cur + x,
    decreases x.len(),
{
    reveal_strlit(".");
    let rest = if dotted { x + "."@ + y } else { x };
    if x.len() == 0 {
        assert(cur + x =~= cur);
        if dotted {
            assert(rest =~= "."@ + y);
            assert("."@.is_prefix_of(rest));
        } else {
            assert(rest.len() == 0);
        }
    } else {
        assert(rest[0] == x[0]);
        assert(x[0] != '.') by {
            assert(x.contains(x[0]) ==> x[0] != '.');
        }
        assert(!"."@.is_prefix_of(rest)) by {
            if "."@.is_prefix_of(rest) {
                assert(rest.subrange(0, 1)[0] == rest[0]);
                assert("."@[0] == '.');
            }
        }
        let x1 = x.drop_first();
        assert(!x1.contains('.')) by {
            if x1.contains('.') {
                let k = choose|k: int| 0 <= k < x1.len() && x1[k] == '.';
                assert(x[k + 1] == '.');
            }
        }
        lemma_split_head(cur.push(x[0]), x1, y, dotted);
        assert(rest.drop_first() =~= if dotted { x1 + "."@ + y } else { x1 });
        assert(cur.push(x[0]) + x1 =~= cur + x);
    }
}

/// When `v` is `m`, or `m` and a dot and more, the major version is `m`.
proof fn lemma_first_piece(v: Seq<char>, m: Seq<char>)
    requires
        !m.contains('.'),
        v == m || (m + "."@).is_prefix_of(v),
    ensures
        split(v, "."@)[0] == m,
{
    reveal_strlit(".");
    if v == m {
        lemma_split_head(seq![], m, seq![], false);
        assert(Seq::<char>::empty() + m =~= m);
    } else {
        let y = v.skip(m.len() + 1int);
        assert(v =~= m + "."@ + y);
        lemma_split_head(seq![], m, y, true);
        assert(Seq::<char>::empty() + m =~= m);
    }
}

proof fn lemma_parse_11()
    ensures
        parse_u32_spec("11"@) == Some(11u32),
        !"11"@.contains('.'),
{
    reveal_strlit("11");
    reveal_with_fuel(dec_value, 3);
    assert("11"@.drop_last().drop_last() =~= Seq::<char>::empty());
    assert(all_digits("11"@));
}

proof fn lemma_parse_12()
    ensures
        parse_u32_spec("12"@) == Some(12u32),
        !"12"@.contains('.'),
{
    reveal_strlit("12");
    reveal_with_fuel(dec_value, 3);
    assert("12"@.drop_last().drop_last() =~= Seq::<char>::empty());
    assert(all_digits("12"@));
}

proof fn lemma_parse_13()
    ensures
        parse_u32_spec("13"@) == Some(13u32),
        !"13"@.contains('.'),
{
    reveal_strlit("13");
    reveal_with_fuel(dec_value, 3);
    assert("13"@.drop_last().drop_last() =~= Seq::<char>::empty());
    assert(all_digits("13"@));
}

proof fn lemma_parse_14()
    ensures
        parse_u32_spec("14"@) == Some(14u32),
        !"14"@.contains('.'),
{
    reveal_strlit("14");
    reveal_with_fuel(dec_value, 3);
    assert("14"@.drop_last().drop_last() =~= Seq::<char>::empty());
    assert(all_digits("14"@));
}

proof fn lemma_parse_15()
    ensures
        parse_u32_spec("15"@) == Some(15u32),
        !"15"@.contains('.'),
{
    reveal_strlit("15");
    reveal_with_fuel(dec_value, 3);
    assert("15"@.drop_last().drop_last() =~= Seq::<char>::empty());
    assert(all_digits("15"@));
}

proof fn lemma_parse_26()
    ensures
        parse_u32_spec("26"@) == Some(26u32),
        !"26"@.contains('.'),
{
    reveal_strlit("26");
    reveal_with_fuel(dec_value, 3);
    assert("26"@.drop_last().drop_last() =~= Seq::<char>::empty());
    assert(all_digits("26"@));
}

/// The release names of the supported macOS versions: whatever the minor
/// and patch numbers, a product version `11…` is Big Sur, `12…` Monterey,
/// `13…` Ventura, `14…` Sonoma, `15…` Sequoia and `26…` Tahoe.
pub proof fn lemma_codename_table(v: Seq<char>)
    ensures
        (v == "11"@ || ("11"@ + "."@).is_prefix_of(v)) ==> codename_of_version(v) == Some("bigsur"@),
        (v == "12"@ || ("12"@ + "."@).is_prefix_of(v)) ==> codename_of_version(v) == Some("monterey"@),
        (v == "13"@ || ("13"@ + "."@).is_prefix_of(v)) ==> codename_of_version(v) == Some("ventura"@),
        (v == "14"@ || ("14"@ + "."@).is_prefix_of(v)) ==> codename_of_version(v) == Some("sonoma"@),
        (v == "15"@ || ("15"@ + "."@).is_prefix_of(v)) ==> codename_of_version(v) == Some("sequoia"@),
        (v == "26"@ || ("26"@ + "."@).is_prefix_of(v)) ==> codename_of_version(v) == Some("tahoe"@),
{
    if v == "11"@ || ("11"@ + "."@).is_prefix_of(v) {
        lemma_parse_11();
        lemma_first_piece(v, "11"@);
    }
    if v == "12"@ || ("12"@ + "."@).is_prefix_of(v) {
        lemma_parse_12();
        lemma_first_piece(v, "12"@);
    }
    if v == "13"@ || ("13"@ + "."@).is_prefix_of(v) {
        lemma_parse_13();
        lemma_first_piece(v, "13"@);
    }
    if v == "14"@ || ("14"@ + "."@).is_prefix_of(v) {
        lemma_parse_14();
        lemma_first_piece(v, "14"@);
    }
    if v == "15"@ || ("15"@ + "."@).is_prefix_of(v) {
        lemma_parse_15();
        lemma_first_piece(v, "15"@);
    }
    if v == "26"@ || ("26"@ + "."@).is_prefix_of(v) {
        lemma_parse_26();
        lemma_first_piece(v, "26"@);
    }
}

/// The codename for a macOS product version (`sw_vers -productVersion`);
/// `None` for versions that have no bottles.
pub fn macos_codename_for_product_version(product_version: &str) -> (r: Option<&'static str>)
    ensures
        r is Some <==> codename_of_version(product_version@) is Some,
        r matches Some(c) ==> codename_of_version(product_version@) == Some(c@),
        (product_version@ == "11"@ || ("11"@ + "."@).is_prefix_of(product_version@)) ==> (r matches Some(c) && c@ == "bigsur"@),
        (product_version@ == "12"@ || ("12"@ + "."@).is_prefix_of(product_version@)) ==> (r matches Some(c) && c@ == "monterey"@),
        (product_version@ == "13"@ || ("13"@ + "."@).is_prefix_of(product_version@)) ==> (r matches Some(c) && c@ == "ventura"@),
        (product_version@ == "14"@ || ("14"@ + "."@).is_prefix_of(product_version@)) ==> (r matches Some(c) && c@ == "sonoma"@),
        (product_version@ == "15"@ || ("15"@ + "."@).is_prefix_of(product_version@)) ==> (r matches Some(c) && c@ == "sequoia"@),
        (product_version@ == "26"@ || ("26"@ + "."@).is_prefix_of(product_version@)) ==> (r matches Some(c) && c@ == "tahoe"@),
{
    proof {
        lemma_codename_table(product_version@);
    }
    let cs = chars_of(product_version);
    let dot = chars_of(".");
    proof {
        reveal_strlit(".");
    }
    let pieces = split_on(&cs, &dot);
    assert(pieces@.map_values(|p: Vec<char>| p@)[0] == pieces@[0]@);
    let major = match parse_u32(&pieces[0]) {
        Some(m) => m,
        None => return None,
    };
    match major {
        11 => Some("bigsur"),
        12 => Some("monterey"),
        13 => Some("ventura"),
        14 => Some("sonoma"),
        15 => Some("sequoia"),
        26 => Some("tahoe"),
        _ => None,
    }
}

/// The codename of the macOS whose product version is `version`, or an
/// error naming the version when no bottles exist for it.
pub fn codename_for(version: &str) -> (r: Result<String, OlmaError>)
    ensures
        r is Ok <==> codename_of_version(version@) is Some,
        r matches Ok(c) ==> codename_of_version(version@) == Some(c@),
        r matches Err(e) ==> (e matches OlmaError::Other(m) && m@ == "unsupported macOS version: "@ + version@),
        (version@ == "11"@ || ("11"@ + "."@).is_prefix_of(version@)) ==> (r matches Ok(c) && c@ == "bigsur"@),
        (version@ == "12"@ || ("12"@ + "."@).is_prefix_of(version@)) ==> (r matches Ok(c) && c@ == "monterey"@),
        (version@ == "13"@ || ("13"@ + "."@).is_prefix_of(version@)) ==> (r matches Ok(c) && c@ == "ventura"@),
        (version@ == "14"@ || ("14"@ + "."@).is_prefix_of(version@)) ==> (r matches Ok(c) && c@ == "sonoma"@),
        (version@ == "15"@ || ("15"@ + "."@).is_prefix_of(version@)) ==> (r matches Ok(c) && c@ == "sequoia"@),
        (version@ == "26"@ || ("26"@ + "."@).is_prefix_of(version@)) ==> (r matches Ok(c) && c@ == "tahoe"@),
{
    proof {
        lemma_codename_table(version@);
    }
    match macos_codename_for_product_version(version) {
        Some(c) => Ok(to_string(c)),
        None => {
            let mut m = to_string("unsupported macOS version: ");
            push_str(&mut m, version);
            Err(OlmaError::Other(m))
        },
    }
}

/// The bottle tag of a host: architecture, underscore, codename.
pub open spec fn bottle_tag_spec(arch: Arch, codename: Seq<char>) -> Seq<char> {
    arch_name(arch) + "_"@ + codename
}

/// The bottle tag for this architecture and macOS codename, e.g.
/// `arm64_sonoma`.
pub fn bottle_tag(arch: Arch, codename: &str) -> (r: String)
    ensures
        r@ == bottle_tag_spec(arch, codename@),
{
    let mut r = to_string(arch.as_bottle_str());
    push_str(&mut r, "_");
    push_str(&mut r, codename);
    r
}

} // verus!
