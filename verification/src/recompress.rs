//! Recompression of a hot artifact: decode the stored zstd frame and
//! re-encode it at the optimized level. The caller writes the result into
//! the task's lock file and commits it with an atomic rename, so readers
//! see either the old frame or the new one in full; both decode to the
//! same bytes.

use vstd::prelude::*;

verus! {

/// The decompressed content of a zstd frame, when the bytes form one.
pub uninterp spec fn zstd_decode_of(bytes: Seq<u8>) -> Option<Seq<u8>>;

/// The frame the encoder produces for these bytes at this level, when it
/// produces one.
pub uninterp spec fn zstd_encode_of(bytes: Seq<u8>, level: i32) -> Option<Seq<u8>>;

/// Relies on zstd::stream::decode_all: decompressing a frame read from a
/// byte slice is a pure function of those bytes — it succeeds exactly on
/// well-formed frames and yields their content.
#[verifier::external_body]
fn zstd_decode(bytes: &Vec<u8>) -> (r: Option<Vec<u8>>)
    ensures
        r is Some <==> zstd_decode_of(bytes@) is Some,
        r is Some ==> Some(r->0@) == zstd_decode_of(bytes@),
{
    zstd::stream::decode_all(&bytes[..]).ok()
}

/// Relies on zstd::stream::encode_all: compressing an in-memory slice at a
/// fixed level (single-threaded, default parameters) is a pure function of
/// the bytes and the level, and compression is lossless — the produced
/// frame decompresses back to the input.
#[verifier::external_body]
fn zstd_encode(bytes: &Vec<u8>, level: i32) -> (r: Option<Vec<u8>>)
    ensures
        r is Some <==> zstd_encode_of(bytes@, level) is Some,
        r is Some ==> Some(r->0@) == zstd_encode_of(bytes@, level),
        r is Some ==> zstd_decode_of(r->0@) == Some(bytes@),
{
    zstd::stream::encode_all(&bytes[..], level).ok()
}

/// Re-encode a compressed artifact at `level`: decode the stored frame and
/// encode its content again. The result is fixed by the two steps — it is
/// the encoder's frame for the decoded content, produced exactly when the
/// input is a well-formed frame and the encoder yields one for its content
/// — and whenever a new frame comes back, it decodes to exactly what the
/// input decodes to, so swapping it in changes no reader-visible content.
pub fn recompress(bytes: &Vec<u8>, level: i32) -> (r: Option<Vec<u8>>)
    ensures
        zstd_decode_of(bytes@) is None ==> r is None,
        zstd_decode_of(bytes@) is Some ==> (r is Some <==> zstd_encode_of(
            zstd_decode_of(bytes@)->0,
            level,
        ) is Some),
        r is Some ==> Some(r->0@) == zstd_encode_of(zstd_decode_of(bytes@)->0, level),
        r is Some ==> zstd_decode_of(r->0@) == zstd_decode_of(bytes@),
{
    match zstd_decode(bytes) {
        Some(raw) => zstd_encode(&raw, level),
        None => None,
    }
}

} // verus!
