//! Installing a plan: download, verify, extract, relocate, link.
pub mod download;
pub mod link;
pub mod relocate;
pub mod verify;

use std::sync::Arc;
use vstd::prelude::*;
use crate::config::Paths;
use crate::error::OlmaError;
use crate::metadata::{bottle_for, BottleFile, Formula};
use crate::output::Reporter;
use crate::text::{dec_string, push_str, push_u64, to_string};

verus! {

/// How many bottles download at once: twice the CPU count, at most eight.
pub fn download_concurrency(cpus: usize) -> (r: usize)
    requires
        cpus <= usize::MAX / 2,
    ensures
        r == if 2 * cpus < 8 { 2 * cpus } else { 8 },
{
    let d = cpus * 2;
    if d < 8 {
        d
    } else {
        8
    }
}

/// `names` joined with `, `.
pub open spec fn joined(names: Seq<Seq<char>>) -> Seq<char>
    decreases names.len(),
{
    if names.len() == 0 {
        seq![]
    } else if names.len() == 1 {
        names[0]
    } else {
        joined(names.drop_last()) + ", "@ + names.last()
    }
}

/// Joins `names` with `, `.
pub fn join_names(names: &Vec<String>) -> (r: String)
    ensures
        r@ == joined(names@.map_values(|s: String| s@)),
{
    let ghost v = names@.map_values(|s: String| s@);
    let mut r = String::new();
    let mut i: usize = 0;
    assert(v.take(0) =~= Seq::<Seq<char>>::empty());
    while i < names.len()
        invariant
            i <= names@.len(),
            v == names@.map_values(|s: String| s@),
            r@ == joined(v.take(i as int)),
        decreases names.len() - i,
    {
        assert(v.take(i + 1).drop_last() == v.take(i as int));
        assert(v.take(i + 1).last() == names@[i as int]@);
        if i > 0 {
            push_str(&mut r, ", ");
        } else {
            assert(v.take(1)[0] == names@[0]@);
        }
        push_str(&mut r, names[i].as_str());
        i = i + 1;
    }
    assert(v.take(names@.len() as int) == v);
    r
}

/// The message shown once a plan is installed.
pub fn install_summary(count: usize, requested: &Vec<String>) -> (r: String)
    ensures
        r@ == "Installed "@ + dec_string(count as nat) + " packages ("@ + joined(
            requested@.map_values(|s: String| s@),
        ) + ")"@,
{
    let mut r = to_string("Installed ");
    push_u64(&mut r, count as u64);
    push_str(&mut r, " packages (");
    let j = join_names(requested);
    push_str(&mut r, j.as_str());
    push_str(&mut r, ")");
    r
}

/// Installs plans: the paths to install under, the platform's bottle tag,
/// and where progress goes.
pub struct Pipeline<R: Reporter + ?Sized> {
    pub config: Arc<Paths>,
    pub bottle_tag: String,
    pub reporter: Arc<R>,
}

impl<R: Reporter + ?Sized> Pipeline<R> {
    /// A pipeline over `config` for bottles tagged `bottle_tag`.
    pub fn new(config: Arc<Paths>, bottle_tag: String, reporter: Arc<R>) -> (r: Self)
        ensures
            r.config == config,
            r.bottle_tag == bottle_tag,
            r.reporter == reporter,
    {
        Pipeline { config, bottle_tag, reporter }
    }
}

/// The bottle a formula installs from on this platform, or
/// `BottleNotForPlatform` naming the formula and the tag.
pub fn bottle_or_error<'a>(formula: &'a Formula, tag: &str) -> (r: Result<&'a BottleFile, OlmaError>)
    ensures
        r matches Ok(b) ==> bottle_for(*formula, tag@) == Some(*b),
        r is Err <==> bottle_for(*formula, tag@) is None,
        r matches Err(e) ==> (e matches OlmaError::BottleNotForPlatform { name, platform }
            && name@ == formula.name@ && platform@ == tag@),
{
    match formula.bottle_for_tag(tag) {
        Some(b) => Ok(b),
        None => Err(OlmaError::BottleNotForPlatform {
            name: to_string(formula.name.as_str()),
            platform: to_string(tag),
        }),
    }
}

/// The status line for a download: `Downloading name version`.
pub fn download_status(formula: &Formula) -> (r: String)
    ensures
        r@ == "Downloading "@ + formula.name@ + " "@ + formula.versions.stable@,
{
    let mut s = to_string("Downloading ");
    push_str(&mut s, formula.name.as_str());
    push_str(&mut s, " ");
    push_str(&mut s, formula.version());
    s
}

} // verus!
