//! Downloaded bottles: where they are cached, how they are named on the
//! registry, and their digests.
use vstd::prelude::*;
use crate::config::{join, join_path, Paths};
use crate::text::{chars_of, push_char, push_str, split, split_on, string_of, to_string};
use sha2::{Digest, Sha256};

verus! {

/// A bottle in the cache.
#[derive(Debug, Clone)]
pub struct Downloaded {
    /// Final path of the cached bottle.
    pub path: String,
    /// Hex-encoded sha256 of the bytes written.
    pub sha256_hex: String,
    pub bytes: u64,
}

/// The SHA-256 digest of `data`.
pub uninterp spec fn sha256_spec(data: Seq<u8>) -> Seq<u8>;

/// The SHA-256 digest of `data` (`sha2::Sha256::digest`): 32 bytes.
#[verifier::external_body]
fn sha256_digest(data: &[u8]) -> (r: Vec<u8>)
    ensures
        r@ == sha256_spec(data@),
        r@.len() == 32,
{
    Sha256::digest(data).to_vec()
}

/// The lower-case hex digit for `d < 16`.
pub open spec fn hex_digit(d: u8) -> char {
    if d < 10 {
        ((d + 48) as u8) as char
    } else {
        ((d + 87) as u8) as char
    }
}

/// Each byte of `data` as two lower-case hex digits.
pub open spec fn hex_lower(data: Seq<u8>) -> Seq<char>
    decreases data.len(),
{
    if data.len() == 0 {
        seq![]
    } else {
        hex_lower(data.drop_last()) + seq![hex_digit(data.last() / 16), hex_digit(data.last() % 16)]
    }
}

/// Hex encoding doubles the length.
pub proof fn lemma_hex_len(data: Seq<u8>)
    ensures
        hex_lower(data).len() == 2 * data.len(),
    decreases data.len(),
{
    if data.len() > 0 {
        lemma_hex_len(data.drop_last());
    }
}

/// Lower-case hex encoding of `data` (`hex::encode`).
#[verifier::external_body]
fn hex_encode(data: &[u8]) -> (r: String)
    ensures
        r@ == hex_lower(data@),
{
    hex::encode(data)
}

/// The lower-case hex SHA-256 digest of `data`.
pub fn sha256_hex(data: &[u8]) -> (r: String)
    ensures
        r@ == hex_lower(sha256_spec(data@)),
        r@.len() == 64,
{
    let d = sha256_digest(data);
    proof {
        lemma_hex_len(d@);
    }
    hex_encode(d.as_slice())
}

/// `<root>/cache/bottles/<sha256>.tar.gz`, where a bottle is cached.
pub fn bottle_cache_path(paths: &Paths, sha256: &str) -> (r: String)
    ensures
        r@ == join(join(join(paths.root@, "cache"@), "bottles"@), sha256@ + ".tar.gz"@),
{
    let dir = paths.cache_bottles();
    let mut file = to_string(sha256);
    push_str(&mut file, ".tar.gz");
    join_path(dir.as_str(), file.as_str())
}

/// `<root>/cache/bottles/<sha256>.tar.gz.partial`, where a download lands
/// before it is complete.
pub fn bottle_partial_path(paths: &Paths, sha256: &str) -> (r: String)
    ensures
        r@ == join(join(join(paths.root@, "cache"@), "bottles"@), sha256@ + ".tar.gz.partial"@),
{
    let dir = paths.cache_bottles();
    let mut file = to_string(sha256);
    push_str(&mut file, ".tar.gz.partial");
    join_path(dir.as_str(), file.as_str())
}

/// The repository scope of a registry blob URL
/// `https://ghcr.io/v2/<owner>/<repo>/<name>/blobs/sha256:<digest>`:
/// `<owner>/<repo>/<name>`.
pub open spec fn scope_repo_of(url: Seq<char>) -> Option<Seq<char>> {
    let halves = split(url, "ghcr.io/"@);
    if halves.len() < 2 {
        None
    } else {
        let parts = split(halves[1], "/"@);
        if parts.len() < 6 {
            None
        } else {
            Some(parts[1] + "/"@ + parts[2] + "/"@ + parts[3])
        }
    }
}

/// Extracts `<owner>/<repo>/<name>` from a bottle URL; `None` when the URL
/// does not have that shape.
pub fn extract_scope_repo(url: &str) -> (r: Option<String>)
    ensures
        r is Some <==> scope_repo_of(url@) is Some,
        r matches Some(s) ==> scope_repo_of(url@) == Some(s@),
{
    let u = chars_of(url);
    let host = chars_of("ghcr.io/");
    let slash = chars_of("/");
    proof {
        reveal_strlit("ghcr.io/");
        reveal_strlit("/");
    }
    let halves = split_on(&u, &host);
    if halves.len() < 2 {
        return None;
    }
    let parts = split_on(&halves[1], &slash);
    assert(halves@.map_values(|p: Vec<char>| p@)[1] == halves@[1]@);
    if parts.len() < 6 {
        return None;
    }
    let ghost pv = parts@.map_values(|p: Vec<char>| p@);
    assert(pv[1] == parts@[1]@ && pv[2] == parts@[2]@ && pv[3] == parts@[3]@);
    let mut r = string_of(&parts[1]);
    push_str(&mut r, "/");
    let p2 = string_of(&parts[2]);
    push_str(&mut r, p2.as_str());
    push_str(&mut r, "/");
    let p3 = string_of(&parts[3]);
    push_str(&mut r, p3.as_str());
    Some(r)
}

} // verus!
