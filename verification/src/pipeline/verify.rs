//! Checking a download against the checksum the formula declares.
use vstd::prelude::*;
use crate::error::OlmaError;
use crate::text::{eq_ignore_ascii_case, eq_ignore_ascii_case_exec};

verus! {

/// Succeeds when the two hex digests agree, ignoring ASCII case; otherwise
/// `ChecksumMismatch`.
pub fn verify_sha256(expected: &str, actual: &str) -> (r: Result<(), OlmaError>)
    ensures
        r is Ok <==> eq_ignore_ascii_case(expected@, actual@),
        r matches Err(e) ==> e is ChecksumMismatch,
{
    if eq_ignore_ascii_case_exec(expected, actual) {
        Ok(())
    } else {
        Err(OlmaError::ChecksumMismatch)
    }
}

/// Checksums agree in either order, and a checksum agrees with itself.
pub proof fn lemma_verify_symmetric(a: Seq<char>, b: Seq<char>)
    ensures
        eq_ignore_ascii_case(a, b) == eq_ignore_ascii_case(b, a),
        eq_ignore_ascii_case(a, a),
{
}

} // verus!
