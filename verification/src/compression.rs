//! zstd compression of a region's payload.

use vstd::prelude::*;

verus! {

/// What `zstd::decode_all` gives for `input`: the decompressed bytes, or the
/// text of the error it reports.
pub uninterp spec fn zstd_decoded(input: Seq<u8>) -> Result<Seq<u8>, Seq<char>>;

/// What `zstd::encode_all` gives for `input` at compression `level`: the
/// compressed frame, or the text of the error it reports.
pub uninterp spec fn zstd_encoded(input: Seq<u8>, level: i32) -> Result<Seq<u8>, Seq<char>>;

/// `zstd::decode_all` on a byte slice, its error turned into its text. The
/// contract claims only that the result is the named result of the input; it
/// does not say what the decompression of a given input is.
#[verifier::external_body]
pub(crate) fn zstd_decode_all(input: &[u8]) -> (r: Result<Vec<u8>, String>)
    ensures
        match r {
            Ok(v) => zstd_decoded(input@) == Ok::<Seq<u8>, Seq<char>>(v@),
            Err(e) => zstd_decoded(input@) == Err::<Seq<u8>, Seq<char>>(e@),
        },
{
    match zstd::decode_all(input) {
        Ok(v) => Ok(v),
        Err(e) => Err(e.to_string()),
    }
}

/// `zstd::encode_all` on a byte slice, its error turned into its text. The
/// contract claims that the result is the named result of the input and
/// level, and that decompressing a frame it produced gives the input back
/// (zstd is lossless); it does not say which bytes the frame holds.
#[verifier::external_body]
pub(crate) fn zstd_encode_all(input: &[u8], level: i32) -> (r: Result<Vec<u8>, String>)
    ensures
        match r {
            Ok(v) => zstd_encoded(input@, level) == Ok::<Seq<u8>, Seq<char>>(v@)
                && zstd_decoded(v@) == Ok::<Seq<u8>, Seq<char>>(input@),
            Err(e) => zstd_encoded(input@, level) == Err::<Seq<u8>, Seq<char>>(e@),
        },
{
    match zstd::encode_all(input, level) {
        Ok(v) => Ok(v),
        Err(e) => Err(e.to_string()),
    }
}

} // verus!
