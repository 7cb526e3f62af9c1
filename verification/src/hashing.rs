//! The one place a digest is computed. Challenge tokens, session ids and the
//! placeholder message signature are all hex SHA-256 strings.
use vstd::prelude::*;
use sha2::Digest;

verus! {

/// The lowercase hex rendering of the SHA-256 digest of a character
/// string's UTF-8 bytes. Determined by the input alone; nothing here states
/// what the digits are on any given input.
pub uninterp spec fn sha256_hex_of(s: Seq<char>) -> Seq<char>;

/// Relies on sha2::Sha256 (through the Digest trait: new, update,
/// finalize) and on the lowercase hex formatting of its 32-byte output:
/// the digest of the input's UTF-8 bytes depends on the input alone and
/// renders as 64 lowercase hex characters, all ASCII.
#[verifier::external_body]
pub(crate) fn sha256_hex(s: &str) -> (r: String)
    ensures
        r@ == sha256_hex_of(s@),
        r@.len() == 64,
        r.is_ascii(),
{
    let mut hasher = sha2::Sha256::new();
    hasher.update(s.as_bytes());
    format!("{:x}", hasher.finalize())
}

} // verus!
