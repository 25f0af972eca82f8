//! Compressed bytes.

use vstd::prelude::*;

verus! {

/// What compressed bytes hold; nothing where they are no compressed bytes.
pub uninterp spec fn decompressed(bytes: Seq<u8>) -> Option<Seq<u8>>;

/// `zstd::encode_all` at level 3, from a slice into a vector. What comes out holds the bytes
/// that went in, as [`decompress`] reads it, and as long as there is memory nothing fails.
/// Nothing is claimed of its length.
#[verifier::external_body]
pub(crate) fn compress(bytes: &[u8]) -> (r: Result<Vec<u8>, String>)
    ensures
        r is Ok,
        r matches Ok(v) ==> decompressed(v@) == Some(bytes@),
{
    zstd::encode_all(bytes, 3).map_err(|e| e.to_string())
}

/// `zstd::decode_all`, from a slice. Whether bytes are read, and what comes out, is a function
/// of the bytes that went in as long as there is memory. Nothing is claimed of the words in
/// which an error is told.
#[verifier::external_body]
pub(crate) fn decompress(bytes: &[u8]) -> (r: Result<Vec<u8>, String>)
    ensures
        r is Ok <==> decompressed(bytes@) is Some,
        r matches Ok(v) ==> decompressed(bytes@) == Some(v@),
{
    zstd::decode_all(bytes).map_err(|e| e.to_string())
}

} // verus!
