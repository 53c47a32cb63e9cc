//! Relocating a whole extracted bottle: symlink targets, and the tally of
//! what was rewritten.
use vstd::prelude::*;
use crate::relocator::classify::FileKind;
use crate::relocator::macho::{swap_prefix, swap_prefix_spec};

verus! {

/// `(from_prefix, to_prefix)` swaps applied to every file of a tree.
pub type SwapList = Vec<(String, String)>;

/// How many files of each kind were relocated.
#[derive(Debug, Clone, Copy, PartialEq, Eq, Structural)]
pub struct RelocStats {
    pub macho_files: usize,
    pub text_files: usize,
    pub symlinks: usize,
}

impl RelocStats {
    /// All counts zero.
    pub fn new() -> (r: Self)
        ensures
            r == (RelocStats { macho_files: 0, text_files: 0, symlinks: 0 }),
    {
        RelocStats { macho_files: 0, text_files: 0, symlinks: 0 }
    }

    /// Counts a relocated symlink.
    pub fn record_symlink(&mut self)
        requires
            old(self).symlinks < usize::MAX,
        ensures
            *final(self) == (RelocStats { symlinks: (old(self).symlinks + 1) as usize, ..*old(self) }),
    {
        self.symlinks = self.symlinks + 1;
    }

    /// Counts a regular file of kind `kind`: every Mach-O file, a text file
    /// only when some swap changed it.
    pub fn record_file(&mut self, kind: FileKind, changed: bool)
        requires
            old(self).macho_files < usize::MAX,
            old(self).text_files < usize::MAX,
        ensures
            kind is MachO ==> *final(self) == (RelocStats { macho_files: (old(self).macho_files + 1) as usize, ..*old(self) }),
            kind is Text && changed ==> *final(self) == (RelocStats { text_files: (old(self).text_files + 1) as usize, ..*old(self) }),
            kind is Text && !changed ==> *final(self) == *old(self),
            kind is Binary ==> *final(self) == *old(self),
    {
        match kind {
            FileKind::MachO => {
                self.macho_files = self.macho_files + 1;
            },
            FileKind::Text => {
                if changed {
                    self.text_files = self.text_files + 1;
                }
            },
            FileKind::Binary => {},
        }
    }
}

/// The new target of a symlink holding `target`: the first swap whose
/// source prefix starts it decides, later ones are not tried.
pub open spec fn swapped_target(target: Seq<char>, swaps: Seq<(String, String)>) -> Option<Seq<char>>
    decreases swaps.len(),
{
    if swaps.len() == 0 {
        None
    } else {
        match swap_prefix_spec(target, swaps[0].0@, swaps[0].1@) {
            Some(t) => Some(t),
            None => swapped_target(target, swaps.drop_first()),
        }
    }
}

/// The target a symlink holding `target` must be rewritten to, if any swap
/// applies.
pub fn relocated_symlink_target(target: &str, swaps: &[(String, String)]) -> (r: Option<String>)
    ensures
        r is Some <==> swapped_target(target@, swaps@) is Some,
        r matches Some(t) ==> swapped_target(target@, swaps@) == Some(t@),
{
    let mut i: usize = 0;
    assert(swaps@.skip(0) == swaps@);
    while i < swaps.len()
        invariant
            i <= swaps@.len(),
            swapped_target(target@, swaps@) == swapped_target(target@, swaps@.skip(i as int)),
        decreases swaps.len() - i,
    {
        assert(swaps@.skip(i as int)[0] == swaps@[i as int]);
        assert(swaps@.skip(i as int).drop_first() == swaps@.skip(i + 1));
        match swap_prefix(target, swaps[i].0.as_str(), swaps[i].1.as_str()) {
            Some(t) => return Some(t),
            None => {},
        }
        i = i + 1;
    }
    None
}

} // verus!
