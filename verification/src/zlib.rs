//! zlib compression, as done by the `flate2` crate.

use crate::error::GitError;
use flate2::read::ZlibDecoder;
use flate2::write::ZlibEncoder;
use flate2::Compression;
use std::io::Read;
use std::io::Write;
use vstd::prelude::*;

verus! {

/// The zlib stream that the encoder makes of `data` at the default level.
pub uninterp spec fn zlib_deflated(data: Seq<u8>) -> Seq<u8>;

/// What the decoder reads out of the zlib stream `data`, or `None` where
/// `data` is no complete zlib stream.
pub uninterp spec fn zlib_inflated(data: Seq<u8>) -> Option<Seq<u8>>;

/// Runs `data` through `flate2::write::ZlibEncoder` at
/// `Compression::default()`, writing into a `Vec`, which takes every write.
/// Trusted: the stream that comes back depends on `data` alone, and the
/// decoder reads `data` out of it.
#[verifier::external_body]
pub(crate) fn deflate(data: &[u8]) -> (out: Vec<u8>)
    ensures
        out@ == zlib_deflated(data@),
        zlib_inflated(out@) == Some(data@),
{
    let mut encoder = ZlibEncoder::new(Vec::new(), Compression::default());
    encoder.write_all(data).unwrap();
    encoder.finish().unwrap()
}

/// Reads `data` to its end through `flate2::read::ZlibDecoder`. Trusted:
/// whether the decoder accepts `data`, and what it reads out of it, depend on
/// `data` alone.
#[verifier::external_body]
pub(crate) fn inflate(data: &[u8]) -> (out: Option<Vec<u8>>)
    ensures
        out is Some <==> zlib_inflated(data@) is Some,
        out matches Some(bytes) ==> zlib_inflated(data@) == Some(bytes@),
{
    let mut bytes = Vec::new();
    match ZlibDecoder::new(data).read_to_end(&mut bytes) {
        Ok(_) => Some(bytes),
        Err(_) => None,
    }
}

/// What the buffered decoder reads out of the zlib stream that `data`
/// begins with, and the number of bytes of `data` that it consumes for it;
/// `None` where `data` does not begin with a complete zlib stream.
pub uninterp spec fn zlib_inflated_prefix(data: Seq<u8>) -> Option<(Seq<u8>, int)>;

/// Reads `data` to the end of its zlib stream through
/// `flate2::bufread::ZlibDecoder` and asks it with `total_in` how many bytes
/// it consumed. Trusted: whether the decoder accepts `data`, what it reads
/// out of it and how much it consumes depend on `data` alone, and it
/// consumes no more than there is.
#[verifier::external_body]
pub(crate) fn inflate_prefix(data: &[u8]) -> (out: Option<(Vec<u8>, usize)>)
    ensures
        out is Some <==> zlib_inflated_prefix(data@) is Some,
        out matches Some((bytes, used)) ==> zlib_inflated_prefix(data@) == Some(
            (bytes@, used as int),
        ) && used <= data@.len(),
{
    let mut decoder = flate2::bufread::ZlibDecoder::new(data);
    let mut bytes = Vec::new();
    match decoder.read_to_end(&mut bytes) {
        Ok(_) => Some((bytes, decoder.total_in() as usize)),
        Err(_) => None,
    }
}

/// Compresses `data` into a zlib stream.
pub fn compress(data: &[u8]) -> (out: Vec<u8>)
    ensures
        out@ == zlib_deflated(data@),
        zlib_inflated(out@) == Some(data@),
{
    deflate(data)
}

/// Decompresses a zlib stream; input that is no complete zlib stream is
/// `Corrupt`.
pub fn decompress(data: &[u8]) -> (res: Result<Vec<u8>, GitError>)
    ensures
        match zlib_inflated(data@) {
            Some(bytes) => res matches Ok(out) && out@ == bytes,
            None => res == Err::<Vec<u8>, GitError>(GitError::Corrupt),
        },
{
    match inflate(data) {
        Some(bytes) => Ok(bytes),
        None => Err(GitError::Corrupt),
    }
}

} // verus!
