//! Telling Mach-O binaries, text files and other binaries apart by their
//! first bytes.
use vstd::prelude::*;
use vstd::utf8::valid_utf8;

verus! {

/// What a file is, as far as relocation cares.
#[derive(Debug, Clone, Copy, PartialEq, Eq, Structural)]
pub enum FileKind {
    MachO,
    Text,
    Binary,
}

/// The magic numbers of thin and fat Mach-O files, in both byte orders.
pub open spec fn is_macho_magic(m: Seq<u8>) -> bool {
    ||| m == seq![0xFEu8, 0xED, 0xFA, 0xCE]
    ||| m == seq![0xFEu8, 0xED, 0xFA, 0xCF]
    ||| m == seq![0xCEu8, 0xFA, 0xED, 0xFE]
    ||| m == seq![0xCFu8, 0xFA, 0xED, 0xFE]
    ||| m == seq![0xCAu8, 0xFE, 0xBA, 0xBE]
    ||| m == seq![0xBEu8, 0xBA, 0xFE, 0xCA]
    ||| m == seq![0xCAu8, 0xFE, 0xBA, 0xBF]
    ||| m == seq![0xBFu8, 0xBA, 0xFE, 0xCA]
}

/// The classification of a file that starts with `head`: a Mach-O magic
/// number makes it Mach-O; otherwise its first 512 bytes decide, text when
/// they hold no zero byte and are valid UTF-8.
pub open spec fn classify(head: Seq<u8>) -> FileKind {
    let probe = head.take(if head.len() < 512 { head.len() as int } else { 512 });
    if head.len() >= 4 && is_macho_magic(head.take(4)) {
        FileKind::MachO
    } else if probe.contains(0u8) {
        FileKind::Binary
    } else if valid_utf8(probe) {
        FileKind::Text
    } else {
        FileKind::Binary
    }
}

/// Whether `bytes` is valid UTF-8 (`std::str::from_utf8(..).is_ok()`).
#[verifier::external_body]
fn is_utf8(bytes: &[u8]) -> (r: bool)
    ensures
        r == valid_utf8(bytes@),
{
    std::str::from_utf8(bytes).is_ok()
}

fn is_macho_magic_exec(a: u8, b: u8, c: u8, d: u8) -> (r: bool)
    ensures
        r == is_macho_magic(seq![a, b, c, d]),
{
    let r = (a == 0xFE && b == 0xED && c == 0xFA && d == 0xCE) || (a == 0xFE && b == 0xED && c == 0xFA
        && d == 0xCF) || (a == 0xCE && b == 0xFA && c == 0xED && d == 0xFE) || (a == 0xCF && b == 0xFA
        && c == 0xED && d == 0xFE) || (a == 0xCA && b == 0xFE && c == 0xBA && d == 0xBE) || (a == 0xBE
        && b == 0xBA && c == 0xFE && d == 0xCA) || (a == 0xCA && b == 0xFE && c == 0xBA && d == 0xBF)
        || (a == 0xBF && b == 0xBA && c == 0xFE && d == 0xCA);
    proof {
        let m = seq![a, b, c, d];
        if is_macho_magic(m) {
            if m == seq![0xFEu8, 0xED, 0xFA, 0xCE] { assert(m[0] == 0xFE && m[1] == 0xED && m[2] == 0xFA && m[3] == 0xCE); }
            if m == seq![0xFEu8, 0xED, 0xFA, 0xCF] { assert(m[0] == 0xFE && m[1] == 0xED && m[2] == 0xFA && m[3] == 0xCF); }
            if m == seq![0xCEu8, 0xFA, 0xED, 0xFE] { assert(m[0] == 0xCE && m[1] == 0xFA && m[2] == 0xED && m[3] == 0xFE); }
            if m == seq![0xCFu8, 0xFA, 0xED, 0xFE] { assert(m[0] == 0xCF && m[1] == 0xFA && m[2] == 0xED && m[3] == 0xFE); }
            if m == seq![0xCAu8, 0xFE, 0xBA, 0xBE] { assert(m[0] == 0xCA && m[1] == 0xFE && m[2] == 0xBA && m[3] == 0xBE); }
            if m == seq![0xBEu8, 0xBA, 0xFE, 0xCA] { assert(m[0] == 0xBE && m[1] == 0xBA && m[2] == 0xFE && m[3] == 0xCA); }
            if m == seq![0xCAu8, 0xFE, 0xBA, 0xBF] { assert(m[0] == 0xCA && m[1] == 0xFE && m[2] == 0xBA && m[3] == 0xBF); }
            if m == seq![0xBFu8, 0xBA, 0xFE, 0xCA] { assert(m[0] == 0xBF && m[1] == 0xBA && m[2] == 0xFE && m[3] == 0xCA); }
        }
        if r {
            if a == 0xFE && b == 0xED && c == 0xFA && d == 0xCE { assert(m =~= seq![0xFEu8, 0xED, 0xFA, 0xCE]); }
            if a == 0xFE && b == 0xED && c == 0xFA && d == 0xCF { assert(m =~= seq![0xFEu8, 0xED, 0xFA, 0xCF]); }
            if a == 0xCE && b == 0xFA && c == 0xED && d == 0xFE { assert(m =~= seq![0xCEu8, 0xFA, 0xED, 0xFE]); }
            if a == 0xCF && b == 0xFA && c == 0xED && d == 0xFE { assert(m =~= seq![0xCFu8, 0xFA, 0xED, 0xFE]); }
            if a == 0xCA && b == 0xFE && c == 0xBA && d == 0xBE { assert(m =~= seq![0xCAu8, 0xFE, 0xBA, 0xBE]); }
            if a == 0xBE && b == 0xBA && c == 0xFE && d == 0xCA { assert(m =~= seq![0xBEu8, 0xBA, 0xFE, 0xCA]); }
            if a == 0xCA && b == 0xFE && c == 0xBA && d == 0xBF { assert(m =~= seq![0xCAu8, 0xFE, 0xBA, 0xBF]); }
            if a == 0xBF && b == 0xBA && c == 0xFE && d == 0xCA { assert(m =~= seq![0xBFu8, 0xBA, 0xFE, 0xCA]); }
        }
    }
    r
}

/// Classifies a file by its first bytes (at most 512 of them are looked at
/// beyond the magic number).
pub fn classify_bytes(head: &[u8]) -> (r: FileKind)
    ensures
        r == classify(head@),
{
    if head.len() >= 4 {
        let ok = is_macho_magic_exec(head[0], head[1], head[2], head[3]);
        assert(head@.take(4) =~= seq![head@[0], head@[1], head@[2], head@[3]]);
        if ok {
            return FileKind::MachO;
        }
    }
    let probe_len = if head.len() < 512 { head.len() } else { 512 };
    let mut probe: Vec<u8> = Vec::new();
    let mut i: usize = 0;
    let mut has_zero = false;
    while i < probe_len
        invariant
            probe_len <= head@.len(),
            i <= probe_len,
            probe@ == head@.take(i as int),
            has_zero == probe@.contains(0u8),
        decreases probe_len - i,
    {
        let b = head[i];
        let ghost before = probe@;
        probe.push(b);
        assert(head@.take(i + 1) == head@.take(i as int).push(b));
        if b == 0 {
            assert(probe@[i as int] == 0u8);
            has_zero = true;
        } else if has_zero {
            proof {
                let j = choose|j: int| 0 <= j < before.len() && before[j] == 0u8;
                assert(probe@[j] == 0u8);
            }
        } else {
            assert(!probe@.contains(0u8)) by {
                if probe@.contains(0u8) {
                    let j = choose|j: int| 0 <= j < probe@.len() && probe@[j] == 0u8;
                    if j < before.len() {
                        assert(before[j] == 0u8);
                    }
                }
            }
        }
        i = i + 1;
    }
    if has_zero {
        return FileKind::Binary;
    }
    if is_utf8(probe.as_slice()) {
        FileKind::Text
    } else {
        FileKind::Binary
    }
}

} // verus!
