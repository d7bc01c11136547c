use vstd::prelude::*;
use sha2::Digest;

verus! {

/// The lower-hex SHA-256 digest of a string, as an uninterpreted name:
/// contracts speak of this function, and the single trusted wrapper below
/// ties it to the outside implementation.
pub uninterp spec fn digest_of(s: Seq<char>) -> Seq<char>;

/// Relies on sha2::Sha256 (through the Digest trait: new, update, finalize)
/// and on generic-array's LowerHex formatting, which writes exactly two hex
/// digits per digest byte: the result is a 64-character lower-hex string
/// determined by the input bytes alone, stable across processes.
#[verifier::external_body]
pub(crate) fn sha256_hex(data: &str) -> (r: String)
    ensures
        r@ == digest_of(data@),
        r@.len() == 64,
{
    let mut hasher = sha2::Sha256::new();
    hasher.update(data.as_bytes());
    format!("{:x}", hasher.finalize())
}

} // verus!
