//! Inflating zlib streams.

use flate2::read::ZlibDecoder;
use std::io::Read;
use vstd::prelude::*;

verus! {

/// The bytes that a zlib stream at the start of `data` inflates to, or
/// none where `data` does not start with a complete, sound zlib stream.
pub uninterp spec fn zlib_inflated(data: Seq<u8>) -> Option<Seq<u8>>;

/// Runs `flate2::read::ZlibDecoder` over `data` and reads it to its end.
/// The decoder inflates the zlib stream that `data` starts with and
/// reports an error for a corrupt or incomplete one; what it yields
/// depends on `data` alone, and that is all the contract claims. The
/// decoder's own words for an error are handed on as they are.
#[verifier::external_body]
pub(crate) fn inflate(data: &[u8]) -> (inflated: Result<Vec<u8>, String>)
    ensures
        match inflated {
            Ok(bytes) => zlib_inflated(data@) == Some(bytes@),
            Err(_) => zlib_inflated(data@) is None,
        },
{
    let mut decoder = ZlibDecoder::new(data);
    let mut decompressed = Vec::new();
    match decoder.read_to_end(&mut decompressed) {
        Ok(_) => Ok(decompressed),
        Err(e) => Err(e.to_string()),
    }
}

} // verus!
