//! LZF compression, done by the `lzf` crate. Nothing about the algorithm is
//! proved here, and nothing is taken on trust but that each call gives the
//! same answer to the same question.

use vstd::prelude::*;
use crate::constants::COMPRESS_UP_TO;

verus! {

#[verifier::external_type_specification]
#[verifier::external_body]
pub struct ExLzfError(lzf::LzfError);

/// What `lzf::compress` returns for `data`: the compressed bytes, or `None`
/// where it reports that the data cannot be compressed.
pub uninterp spec fn lzf_compressed(data: Seq<u8>) -> Option<Seq<u8>>;

/// What `lzf::decompress` returns for `data` and an output limit of
/// `out_len` bytes: the decompressed bytes, or `None` where it reports that
/// the data is corrupt or the limit too small.
pub uninterp spec fn lzf_decompressed(data: Seq<u8>, out_len: usize) -> Option<Seq<u8>>;

/// Calls `lzf::compress`.
///
/// Trusted: the result is a function of the input alone. Nothing else is
/// claimed of it; whoever uses the compressed bytes tries them out first.
/// Inputs over 164 bytes are left out. The crate compresses into a buffer
/// of the input's length and moves its write position on by one, without
/// looking, whenever a run of 32 literals closes; a match that follows
/// writes the header of the run at that position. The position can reach
/// the end of the buffer only after five such runs with more than four
/// bytes still to read, so not on inputs of up to 164 bytes.
#[verifier::external_body]
pub(crate) fn lzf_compress(data: &[u8]) -> (r: Result<Vec<u8>, lzf::LzfError>)
    requires
        data@.len() <= COMPRESS_UP_TO,
    ensures
        match lzf_compressed(data@) {
            Some(c) => r matches Ok(v) && v@ == c,
            None => r is Err,
        },
{
    lzf::compress(data)
}

/// Calls `lzf::decompress`.
///
/// Trusted: the result is a function of the input and the limit alone.
/// Limits over `i32::MAX` are left out: the crate computes back-references
/// in an `i32`.
#[verifier::external_body]
pub(crate) fn lzf_decompress(data: &[u8], out_len: usize) -> (r: Result<Vec<u8>, lzf::LzfError>)
    requires
        out_len <= i32::MAX,
    ensures
        match lzf_decompressed(data@, out_len) {
            Some(t) => r matches Ok(v) && v@ == t,
            None => r is Err,
        },
{
    lzf::decompress(data, out_len)
}

} // verus!
