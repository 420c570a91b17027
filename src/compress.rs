//! Block compression of encoded records with zstd.

use vstd::prelude::*;

verus! {

/// The zstd frame that `zstd::encode_all` writes for `data` at `level`: it
/// depends on the data and the level alone.
pub uninterp spec fn zstd_frame(data: Seq<u8>, level: i32) -> Seq<u8>;

/// `b` is a frame that `zstd::encode_all` writes for some data and level.
pub open spec fn is_zstd_frame(b: Seq<u8>) -> bool {
    exists|d: Seq<u8>, l: i32| #[trigger] zstd_frame(d, l) == b
}

/// The compression level of an ingestion run: a low level, for speed.
pub const COMPRESSION_LEVEL: i32 = 3;

/// The failure of a compression or decompression pass.
#[derive(Clone, Copy, Debug, PartialEq, Eq, Structural)]
pub enum CompressionError {
    Compress,
    Decompress,
}

/// Relies on `zstd::encode_all`: reading from a slice into a `Vec` it only
/// fails where no compression context can be allocated (which panics in
/// `zstd_safe::CCtx::create`), and a level out of range is clamped; it returns
/// the zstd frame of the data at the level.
#[verifier::external_body]
fn zstd_encode_all(data: &[u8], level: i32) -> (r: Option<Vec<u8>>)
    ensures
        r is Some,
        r matches Some(c) ==> c@ == zstd_frame(data@, level),
{
    zstd::encode_all(data, level).ok()
}

/// Relies on `zstd::decode_all`: zstd is lossless, so a frame that
/// `zstd::encode_all` wrote decodes to the data it was written for.
#[verifier::external_body]
fn zstd_decode_all(data: &[u8]) -> (r: Option<Vec<u8>>)
    ensures
        is_zstd_frame(data@) ==> (r matches Some(v) && forall|d: Seq<u8>, l: i32| #[trigger] zstd_frame(d, l) == data@ ==> v@ == d),
{
    zstd::decode_all(data).ok()
}

/// Compresses bytes into a zstd frame.
pub fn compress(data: &[u8], level: i32) -> (r: Result<Vec<u8>, CompressionError>)
    ensures
        r is Ok,
        r matches Ok(c) ==> c@ == zstd_frame(data@, level),
{
    match zstd_encode_all(data, level) {
        Some(c) => Ok(c),
        None => Err(CompressionError::Compress),
    }
}

/// Decompresses a zstd frame; a frame that `compress` wrote gives back
/// exactly the bytes it was written for.
pub fn decompress(data: &[u8]) -> (r: Result<Vec<u8>, CompressionError>)
    ensures
        forall|d: Seq<u8>, l: i32|
            #![trigger zstd_frame(d, l)]
            data@ == zstd_frame(d, l) ==> (r matches Ok(v) && v@ == d),
        r matches Err(e) ==> e == CompressionError::Decompress,
{
    match zstd_decode_all(data) {
        Some(v) => Ok(v),
        None => Err(CompressionError::Decompress),
    }
}

} // verus!
