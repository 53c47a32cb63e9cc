//! Where cached formula metadata lives.
use vstd::prelude::*;
use crate::config::{join, join_path, Paths};
use crate::text::{push_str, to_string};

verus! {

/// A cached formula document and the entity tag it was served with.
#[derive(Debug, Clone)]
pub struct FormulaCacheEntry {
    pub json: String,
    pub etag: Option<String>,
}

/// The metadata cache under `<root>/cache/formulae`.
pub struct FormulaCache<'a> {
    config: &'a Paths,
}

impl<'a> FormulaCache<'a> {
    /// The cache of the layout `config`.
    pub fn new(config: &'a Paths) -> (r: Self)
        ensures
            r.paths() == *config,
    {
        FormulaCache { config }
    }

    /// The layout this cache belongs to.
    pub closed spec fn paths(&self) -> Paths {
        *self.config
    }

    /// `<root>/cache/formulae/<name>.json`.
    pub fn formula_path(&self, name: &str) -> (r: String)
        ensures
            r@ == join(join(join(self.paths().root@, "cache"@), "formulae"@), name@ + ".json"@),
    {
        let dir = self.config.cache_formulae();
        let mut file = to_string(name);
        push_str(&mut file, ".json");
        join_path(dir.as_str(), file.as_str())
    }

    /// `<root>/cache/formulae/<name>.etag`.
    pub fn etag_path(&self, name: &str) -> (r: String)
        ensures
            r@ == join(join(join(self.paths().root@, "cache"@), "formulae"@), name@ + ".etag"@),
    {
        let dir = self.config.cache_formulae();
        let mut file = to_string(name);
        push_str(&mut file, ".etag");
        join_path(dir.as_str(), file.as_str())
    }
}

} // verus!
