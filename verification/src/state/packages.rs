//! Installed packages.
use vstd::prelude::*;
use crate::text::to_string;

verus! {

/// One installed package.
#[derive(Debug)]
pub struct PackageRow {
    pub name: String,
    pub version: String,
    pub installed_at: i64,
    pub requested: bool,
    pub previous_ver: Option<String>,
}

/// A copy of an optional string.
pub fn copy_opt(o: &Option<String>) -> (r: Option<String>)
    ensures
        r == *o,
{
    match o {
        Some(s) => Some(s.clone()),
        None => None,
    }
}

impl Clone for PackageRow {
    fn clone(&self) -> (r: Self)
        ensures
            r == *self,
    {
        PackageRow {
            name: self.name.clone(),
            version: self.version.clone(),
            installed_at: self.installed_at,
            requested: self.requested,
            previous_ver: copy_opt(&self.previous_ver),
        }
    }
}

} // verus!
