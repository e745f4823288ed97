//! Content digests.
//!
//! Every file the engine tracks — the configuration file and each source
//! file — is identified by a fixed-size content digest of its raw bytes, so
//! that any byte-level change is detected.

use vstd::prelude::*;

verus! {

/// The content digest of a byte string, as lowercase hexadecimal characters.
pub uninterp spec fn spec_content_digest(bytes: Seq<u8>) -> Seq<char>;

/// Relies on `blake3::hash` and `blake3::Hash::to_hex`: the digest is a
/// deterministic function of the input bytes alone, rendered as exactly 64
/// lowercase hexadecimal characters.
#[verifier::external_body]
pub(crate) fn content_digest(bytes: &[u8]) -> (r: String)
    ensures
        r@ == spec_content_digest(bytes@),
        r@.len() == 64,
{
    blake3::hash(bytes).to_hex().as_str().to_owned()
}

} // verus!
