//! How a formula is fetched: from the cache, over the network, or both.
//! The caller performs the reads and requests; these functions decide.
use vstd::prelude::*;
use crate::cache::FormulaCacheEntry;
use crate::error::OlmaError;
use crate::text::{push_str, to_string};

verus! {

/// Whether the metadata cache may answer, must be refreshed, is bypassed or
/// is all there is.
#[derive(Debug, Clone, Copy, PartialEq, Eq, Structural)]
pub enum FetchPolicy {
    CacheFirst,
    ForceRefresh,
    BypassCache,
    OfflineOnly,
}

/// Whether the cache is read at all under `policy`.
pub fn reads_cache(policy: FetchPolicy) -> (r: bool)
    ensures
        r == !(policy is BypassCache),
{
    !matches!(policy, FetchPolicy::BypassCache)
}

/// Whether a fresh download is written back to the cache under `policy`.
pub fn writes_cache(policy: FetchPolicy) -> (r: bool)
    ensures
        r == !(policy is BypassCache),
{
    !matches!(policy, FetchPolicy::BypassCache)
}

/// The first step of a fetch.
#[derive(Debug)]
pub enum FetchStart {
    /// Parse the cached document.
    UseCache,
    /// Fail: offline and nothing cached.
    Fail(OlmaError),
    /// Ask the server, optionally with an `If-None-Match` entity tag.
    Request { if_none_match: Option<String> },
}

/// `offline: no cached metadata for <name>`.
pub open spec fn offline_miss_message(name: Seq<char>) -> Seq<char> {
    "offline: no cached metadata for "@ + name
}

/// Decides the first step of fetching `name` given what the cache holds
/// (`cached` is `None` when the cache was not read or had nothing).
pub fn fetch_start(name: &str, policy: FetchPolicy, cached: &Option<FormulaCacheEntry>) -> (r: FetchStart)
    ensures
        policy is OfflineOnly && cached is None ==> (r matches FetchStart::Fail(OlmaError::Network(m))
            && m@ == offline_miss_message(name@)),
        policy is OfflineOnly && cached is Some ==> r is UseCache,
        policy is CacheFirst && cached is Some ==> r is UseCache,
        (policy is CacheFirst || policy is BypassCache || policy is ForceRefresh) && !(policy is CacheFirst
            && cached is Some) ==> (r matches FetchStart::Request { if_none_match } && (
            if policy is ForceRefresh && cached is Some && cached->0.etag is Some {
                if_none_match is Some && if_none_match->0@ == cached->0.etag->0@
            } else {
                if_none_match is None
            })),
{
    match policy {
        FetchPolicy::OfflineOnly => match cached {
            Some(_) => FetchStart::UseCache,
            None => {
                let mut m = to_string("offline: no cached metadata for ");
                push_str(&mut m, name);
                FetchStart::Fail(OlmaError::Network(m))
            },
        },
        FetchPolicy::CacheFirst => match cached {
            Some(_) => FetchStart::UseCache,
            None => FetchStart::Request { if_none_match: None },
        },
        FetchPolicy::ForceRefresh => match cached {
            Some(entry) => match &entry.etag {
                Some(e) => FetchStart::Request { if_none_match: Some(to_string(e.as_str())) },
                None => FetchStart::Request { if_none_match: None },
            },
            None => FetchStart::Request { if_none_match: None },
        },
        FetchPolicy::BypassCache => FetchStart::Request { if_none_match: None },
    }
}

/// What to do with the server's answer.
#[derive(Debug)]
pub enum ResponseAction {
    /// 304: parse the cached document.
    UseCache,
    /// 200: parse the body, writing it to the cache first when `store`.
    UseBody { store: bool },
    /// Fail with this error.
    Fail(OlmaError),
}

/// Decides what to do with a response of status `status` (whose text form
/// is `status_text`, e.g. `500 Internal Server Error`) to a request for
/// `name`; `has_cache` tells whether a cached document was read.
pub fn response_action(name: &str, policy: FetchPolicy, status: u16, status_text: &str, has_cache: bool) -> (r: ResponseAction)
    ensures
        status == 304 && has_cache ==> r is UseCache,
        status == 304 && !has_cache ==> (r matches ResponseAction::Fail(OlmaError::Network(m)) && m@ == "304 without cache"@),
        status == 200 ==> (r matches ResponseAction::UseBody { store } && store == !(policy is BypassCache)),
        status == 404 ==> (r matches ResponseAction::Fail(OlmaError::FormulaNotFound(n)) && n@ == name@),
        status != 304 && status != 200 && status != 404 ==> (r matches ResponseAction::Fail(OlmaError::Network(m))
            && m@ == "formulae.brew.sh returned "@ + status_text@),
{
    if status == 304 {
        if has_cache {
            ResponseAction::UseCache
        } else {
            ResponseAction::Fail(OlmaError::Network(to_string("304 without cache")))
        }
    } else if status == 200 {
        ResponseAction::UseBody { store: writes_cache(policy) }
    } else if status == 404 {
        ResponseAction::Fail(OlmaError::FormulaNotFound(to_string(name)))
    } else {
        let mut m = to_string("formulae.brew.sh returned ");
        push_str(&mut m, status_text);
        ResponseAction::Fail(OlmaError::Network(m))
    }
}

/// `<base>/<name>.json`, the document of one formula.
pub fn formula_url(base: &str, name: &str) -> (r: String)
    ensures
        r@ == base@ + "/"@ + name@ + ".json"@,
{
    let mut r = to_string(base);
    push_str(&mut r, "/");
    push_str(&mut r, name);
    push_str(&mut r, ".json");
    r
}

/// The anonymous pull-token URL for one registry repository.
pub fn ghcr_token_url(scope_repo: &str) -> (r: String)
    ensures
        r@ == "https://ghcr.io/token?service=ghcr.io&scope=repository:"@ + scope_repo@ + ":pull"@,
{
    let mut r = to_string("https://ghcr.io/token?service=ghcr.io&scope=repository:");
    push_str(&mut r, scope_repo);
    push_str(&mut r, ":pull");
    r
}

} // verus!
