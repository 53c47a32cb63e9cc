//! The directory layout under the olma root, and the remote endpoints.
use vstd::prelude::*;
use crate::text::{chars_of, push_char, push_str, to_string};

verus! {

/// `PathBuf::join` on Unix: an absolute `comp` replaces `base`; otherwise
/// `comp` is appended, with a `/` between unless `base` is empty or already
/// ends in one.
pub open spec fn join(base: Seq<char>, comp: Seq<char>) -> Seq<char> {
    if comp.len() > 0 && comp[0] == '/' {
        comp
    } else if base.len() > 0 && base.last() != '/' {
        base + "/"@ + comp
    } else {
        base + comp
    }
}

/// Joins a path component onto `base`.
pub fn join_path(base: &str, comp: &str) -> (r: String)
    ensures
        r@ == join(base@, comp@),
{
    let b = chars_of(base);
    let c = chars_of(comp);
    if c.len() > 0 && c[0] == '/' {
        return to_string(comp);
    }
    let mut r = to_string(base);
    if b.len() > 0 && b[b.len() - 1] != '/' {
        push_str(&mut r, "/");
    }
    push_str(&mut r, comp);
    r
}

/// The root under which olma keeps everything.
#[derive(Debug, Clone)]
pub struct Paths {
    pub root: String,
}

impl Paths {
    /// `<root>/bin`, where executables are linked.
    pub fn bin(&self) -> (r: String)
        ensures
            r@ == join(self.root@, "bin"@),
    {
        join_path(self.root.as_str(), "bin")
    }

    /// `<root>/packages`, one directory per installed formula.
    pub fn packages(&self) -> (r: String)
        ensures
            r@ == join(self.root@, "packages"@),
    {
        join_path(self.root.as_str(), "packages")
    }

    /// `<root>/cache`.
    pub fn cache(&self) -> (r: String)
        ensures
            r@ == join(self.root@, "cache"@),
    {
        join_path(self.root.as_str(), "cache")
    }

    /// `<root>/cache/bottles`, downloaded bottles by checksum.
    pub fn cache_bottles(&self) -> (r: String)
        ensures
            r@ == join(join(self.root@, "cache"@), "bottles"@),
    {
        let c = self.cache();
        join_path(c.as_str(), "bottles")
    }

    /// `<root>/cache/formulae`, cached formula metadata.
    pub fn cache_formulae(&self) -> (r: String)
        ensures
            r@ == join(join(self.root@, "cache"@), "formulae"@),
    {
        let c = self.cache();
        join_path(c.as_str(), "formulae")
    }

    /// `<root>/.lock`, held while the layout is written.
    pub fn lock_file(&self) -> (r: String)
        ensures
            r@ == join(self.root@, ".lock"@),
    {
        join_path(self.root.as_str(), ".lock")
    }

    /// `<root>/packages/<name>/<version>`.
    pub fn package_dir(&self, name: &str, version: &str) -> (r: String)
        ensures
            r@ == join(join(join(self.root@, "packages"@), name@), version@),
    {
        let p = self.packages();
        let n = join_path(p.as_str(), name);
        join_path(n.as_str(), version)
    }

    /// `<root>/opt`, which holds one stable link per installed formula.
    pub fn opt(&self) -> (r: String)
        ensures
            r@ == join(self.root@, "opt"@),
    {
        join_path(self.root.as_str(), "opt")
    }

    /// `<root>/opt/<name>`, the stable link to the installed version of `name`.
    pub fn opt_link(&self, name: &str) -> (r: String)
        ensures
            r@ == join(join(self.root@, "opt"@), name@),
    {
        let o = self.opt();
        join_path(o.as_str(), name)
    }

    /// The paths under the root that the environment names, or else under
    /// `/opt/olma`.
    pub fn from_root(env_root: Option<String>) -> (r: Paths)
        ensures
            env_root matches Some(v) ==> r.root == v,
            env_root is None ==> r.root@ == "/opt/olma"@,
    {
        match env_root {
            Some(v) => Paths { root: v },
            None => Paths { root: to_string("/opt/olma") },
        }
    }

    /// The directories that `ensure_layout` creates, in order.
    pub fn layout_dirs(&self) -> (r: Vec<String>)
        ensures
            r@.len() == 4,
            r@[0]@ == join(self.root@, "bin"@),
            r@[1]@ == join(self.root@, "packages"@),
            r@[2]@ == join(join(self.root@, "cache"@), "bottles"@),
            r@[3]@ == join(join(self.root@, "cache"@), "formulae"@),
    {
        let mut r: Vec<String> = Vec::new();
        r.push(self.bin());
        r.push(self.packages());
        r.push(self.cache_bottles());
        r.push(self.cache_formulae());
        r
    }
}

/// The formulae API endpoint.
pub fn formulae_api_base() -> (r: &'static str)
    ensures
        r@ == "https://formulae.brew.sh/api/formula"@,
{
    "https://formulae.brew.sh/api/formula"
}

/// The GitHub container registry that hosts bottles.
pub fn ghcr_base() -> (r: &'static str)
    ensures
        r@ == "https://ghcr.io"@,
{
    "https://ghcr.io"
}

} // verus!
