//! Formula metadata as published by the formulae API, and service definitions.
pub mod fetch;
pub mod index;

use vstd::prelude::*;
use crate::text::str_eq;

verus! {

/// One formula: name, description, dependencies, version and bottles.
#[derive(Debug, Clone)]
pub struct Formula {
    pub name: String,
    pub desc: Option<String>,
    pub homepage: Option<String>,
    pub dependencies: Vec<String>,
    pub versions: Versions,
    pub bottle: BottleSpec,
}

/// The versions of a formula.
#[derive(Debug, Clone)]
pub struct Versions {
    pub stable: String,
}

/// The bottles of a formula.
#[derive(Debug, Clone)]
pub struct BottleSpec {
    pub stable: BottleStable,
}

/// The bottles of the stable version, keyed by platform tag. The metadata
/// lists each tag once (`tags_unique`); should a tag repeat, its first entry
/// is the one looked up.
#[derive(Debug, Clone)]
pub struct BottleStable {
    pub rebuild: Option<u32>,
    pub root_url: String,
    pub files: Vec<(String, BottleFile)>,
}

/// One bottle: where it installs, where it lives and its checksum.
#[derive(Debug, Clone)]
pub struct BottleFile {
    pub cellar: String,
    pub url: String,
    pub sha256: String,
}

/// The first entry of `files` whose tag is `tag`.
pub open spec fn lookup_file(files: Seq<(String, BottleFile)>, tag: Seq<char>) -> Option<BottleFile>
    decreases files.len(),
{
    if files.len() == 0 {
        None
    } else if files[0].0@ == tag {
        Some(files[0].1)
    } else {
        lookup_file(files.drop_first(), tag)
    }
}

/// No platform tag appears twice among `files`.
pub open spec fn tags_unique(files: Seq<(String, BottleFile)>) -> bool {
    forall|i: int, j: int| 0 <= i < files.len() && 0 <= j < files.len() && i != j ==> #[trigger] files[i].0@ != #[trigger] files[j].0@
}

/// With each tag listed once, the lookup finds the entry with that tag
/// wherever it stands, and finds nothing exactly when no entry has it; so
/// the order of the list does not matter.
pub proof fn lemma_lookup_unique(files: Seq<(String, BottleFile)>, tag: Seq<char>)
    requires
        tags_unique(files),
    ensures
        forall|i: int| 0 <= i < files.len() && #[trigger] files[i].0@ == tag ==> lookup_file(files, tag) == Some(files[i].1),
        lookup_file(files, tag) is None <==> forall|i: int| 0 <= i < files.len() ==> #[trigger] files[i].0@ != tag,
    decreases files.len(),
{
    if files.len() > 0 {
        let rest = files.drop_first();
        assert(tags_unique(rest)) by {
            assert forall|i: int, j: int| 0 <= i < rest.len() && 0 <= j < rest.len() && i != j implies #[trigger] rest[i].0@ != #[trigger] rest[j].0@ by {
                assert(rest[i] == files[i + 1] && rest[j] == files[j + 1]);
            }
        }
        lemma_lookup_unique(rest, tag);
        assert forall|i: int| 0 <= i < files.len() && #[trigger] files[i].0@ == tag implies lookup_file(files, tag) == Some(files[i].1) by {
            if i > 0 {
                assert(files[0].0@ != files[i].0@);
                assert(rest[i - 1] == files[i]);
            }
        }
        if lookup_file(files, tag) is None {
            assert forall|i: int| 0 <= i < files.len() implies #[trigger] files[i].0@ != tag by {
                if i > 0 {
                    assert(rest[i - 1] == files[i]);
                }
            }
        } else if files[0].0@ != tag {
            let k = choose|k: int| 0 <= k < rest.len() && #[trigger] rest[k].0@ == tag;
            assert(files[k + 1].0@ == tag);
        }
    }
}

/// Whether each tag appears once among `files`.
pub fn has_unique_tags(files: &Vec<(String, BottleFile)>) -> (r: bool)
    ensures
        r == tags_unique(files@),
{
    let mut i: usize = 0;
    while i < files.len()
        invariant
            i <= files@.len(),
            forall|a: int, b: int| 0 <= a < i && 0 <= b < files@.len() && a != b ==> #[trigger] files@[a].0@ != #[trigger] files@[b].0@,
        decreases files.len() - i,
    {
        let mut j: usize = 0;
        while j < files.len()
            invariant
                i < files@.len(),
                j <= files@.len(),
                forall|a: int, b: int| 0 <= a < i && 0 <= b < files@.len() && a != b ==> #[trigger] files@[a].0@ != #[trigger] files@[b].0@,
                forall|b: int| 0 <= b < j && b != i ==> files@[i as int].0@ != #[trigger] files@[b].0@,
            decreases files.len() - j,
        {
            if j != i && str_eq(files[i].0.as_str(), files[j].0.as_str()) {
                return false;
            }
            j = j + 1;
        }
        i = i + 1;
    }
    true
}

/// The bottle for `tag`, falling back to the platform-independent `all` bottle.
pub open spec fn bottle_for(f: Formula, tag: Seq<char>) -> Option<BottleFile> {
    match lookup_file(f.bottle.stable.files@, tag) {
        Some(b) => Some(b),
        None => lookup_file(f.bottle.stable.files@, "all"@),
    }
}

/// Finds the entry for `tag` in `files[from..]`.
fn find_file<'a>(files: &'a Vec<(String, BottleFile)>, tag: &str, from: usize) -> (r: Option<&'a BottleFile>)
    requires
        from <= files@.len(),
    ensures
        r matches Some(b) ==> lookup_file(files@.skip(from as int), tag@) == Some(*b),
        r is None ==> lookup_file(files@.skip(from as int), tag@) is None,
    decreases files@.len() - from,
{
    if from == files.len() {
        return None;
    }
    assert(files@.skip(from as int).drop_first() == files@.skip(from + 1));
    if str_eq(files[from].0.as_str(), tag) {
        Some(&files[from].1)
    } else {
        find_file(files, tag, from + 1)
    }
}

impl Formula {
    /// The bottle for this platform tag, or else the `all` bottle.
    pub fn bottle_for_tag(&self, tag: &str) -> (r: Option<&BottleFile>)
        ensures
            r matches Some(b) ==> bottle_for(*self, tag@) == Some(*b),
            r is None ==> bottle_for(*self, tag@) is None,
    {
        let files = &self.bottle.stable.files;
        assert(files@.skip(0) == files@);
        match find_file(files, tag, 0) {
            Some(b) => Some(b),
            None => {
                let all = "all";
                proof {
                    reveal_strlit("all");
                }
                find_file(files, all, 0)
            },
        }
    }

    /// The stable version.
    pub fn version(&self) -> (r: &str)
        ensures
            r@ == self.versions.stable@,
    {
        self.versions.stable.as_str()
    }
}

/// A `keep_alive` value of a service definition.
#[derive(Debug, Clone)]
pub enum KeepAlive {
    /// Keep alive always, or never.
    Bool(bool),
    /// Conditions, in key order; values that are neither booleans nor
    /// integers are kept as `Other` and not rendered.
    Obj(Vec<(String, KeepAliveValue)>),
}

/// The value of one keep-alive condition.
#[derive(Debug, Clone)]
pub enum KeepAliveValue {
    Bool(bool),
    Int(i64),
    Other,
}

/// A background service that a formula declares.
#[derive(Debug, Clone)]
pub struct Service {
    pub run: Vec<String>,
    pub keep_alive: Option<KeepAlive>,
    pub working_dir: Option<String>,
    pub log_path: Option<String>,
    pub error_log_path: Option<String>,
    pub process_type: Option<String>,
    pub environment_variables: Vec<(String, String)>,
}

} // verus!
