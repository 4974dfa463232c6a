//! Base-58 text encoding of record keys: the destination store's
//! stable, human-readable key representation.

use vstd::prelude::*;

verus! {

/// The base-58 text that encoding a byte sequence produces.  The
/// encoding is a pure function of the bytes, so the text is named
/// rather than spelled out; contracts downstream speak of this name.
pub uninterp spec fn bs58_of(bytes: Seq<u8>) -> Seq<char>;

/// Relies on `bs58::encode(..).into_string()`: base-58 text of the
/// input bytes, using the crate's default alphabet with no checksum; a
/// pure function of the bytes alone.
#[verifier::external_body]
pub(crate) fn bs58_encode(bytes: &[u8]) -> (r: String)
    ensures
        r@ == bs58_of(bytes@),
{
    bs58::encode(bytes).into_string()
}

} // verus!
