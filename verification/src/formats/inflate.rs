//! Decompression of log containers with the crate `zune-inflate`.

use vstd::prelude::*;

verus! {

/// What the decoder of the crate `zune-inflate` makes of a zlib stream when
/// given a limit for the size of the output; nothing where the decoder
/// fails. The decoder fails on a damaged stream, and where it notices that
/// the output has grown beyond the limit, which it does not always.
pub uninterp spec fn zlib_inflated(compressed: Seq<u8>, limit: nat) -> Option<Seq<u8>>;

/// The bytes of an optional vector.
pub open spec fn option_bytes(bytes: Option<Vec<u8>>) -> Option<Seq<u8>> {
    match bytes {
        Some(b) => Some(b@),
        None => None,
    }
}

/// Inflates a zlib stream, `DeflateDecoder::decode_zlib` of the crate
/// `zune-inflate` with `limit` as the limit of its options. The outcome
/// depends on the stream and the limit alone; a failure of the decoder is
/// given as nothing.
#[verifier::external_body]
pub(crate) fn inflate_zlib(compressed: &[u8], limit: usize) -> (r: Option<Vec<u8>>)
    ensures
        option_bytes(r) == zlib_inflated(compressed@, limit as nat),
{
    let options = zune_inflate::DeflateOptions::default().set_limit(limit);
    zune_inflate::DeflateDecoder::new_with_options(compressed, options).decode_zlib().ok()
}

} // verus!
