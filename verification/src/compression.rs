use vstd::prelude::*;
use crate::errors::{Errors, Res};

verus! {

/// The zstd frame that `zstd::stream::copy_encode` writes for `input` at
/// compression `level`.
pub uninterp spec fn zstd_encoded(input: Seq<u8>, level: int) -> Seq<u8>;

/// Calls `zstd::stream::copy_encode` from `input` into a new vector. The
/// vector holds the frame that zstd computes from the input and the level
/// alone. The call succeeds: reading a slice and writing into a `Vec` do not
/// fail, and zstd clamps any level into its range
/// (`ZSTD_cParam_clampBounds`); what is left is zstd's C code running out of
/// memory, which is set aside here as it is for every allocation.
#[verifier::external_body]
fn zstd_copy_encode(input: &[u8], level: i32) -> (r: Result<Vec<u8>, String>)
    ensures
        r is Ok,
        r matches Ok(out) ==> out@ == zstd_encoded(input@, level as int),
{
    let mut out: Vec<u8> = Vec::with_capacity(input.len());
    match zstd::stream::copy_encode(input, &mut out, level) {
        Ok(()) => Ok(out),
        Err(e) => Err(e.to_string()),
    }
}

/// The bytes that `zstd::stream::decode_all` gives for `input`, when it is a
/// sequence of zstd frames.
pub uninterp spec fn zstd_decoded(input: Seq<u8>) -> Seq<u8>;

/// Calls `zstd::stream::decode_all` on `input`. When it succeeds, the bytes
/// are those that zstd decodes from the input alone; when it fails, the
/// error's text is returned. zstd is lossless: a frame that `copy_encode`
/// wrote for some bytes, at any level, decodes to those bytes.
#[verifier::external_body]
fn zstd_decode_all(input: &[u8]) -> (r: Result<Vec<u8>, String>)
    ensures
        r matches Ok(out) ==> out@ == zstd_decoded(input@),
        forall|s: Seq<u8>, level: int|
            i32::MIN <= level <= i32::MAX && input@ == #[trigger] zstd_encoded(s, level) ==> r is Ok && r->Ok_0@ == s,
{
    match zstd::stream::decode_all(input) {
        Ok(out) => Ok(out),
        Err(e) => Err(e.to_string()),
    }
}

/// `zstd::compression_level_range()`: the compression levels that zstd
/// accepts. Its source returns `ZSTD_minCLevel()..=ZSTD_maxCLevel()`, which
/// the bundled zstd defines as `-ZSTD_TARGETLENGTH_MAX` (`-(1 << 17)`) and
/// `ZSTD_MAX_CLEVEL` (22).
#[verifier::external_body]
pub(crate) fn zstd_level_range() -> (r: (i32, i32))
    ensures
        r.0 == -131072,
        r.1 == 22,
{
    let range = zstd::compression_level_range();
    (*range.start(), *range.end())
}

/// `zstd::DEFAULT_COMPRESSION_LEVEL`, which the crate takes from zstd's
/// `ZSTD_CLEVEL_DEFAULT`, 3.
#[verifier::external_body]
pub(crate) fn zstd_default_level() -> (r: i32)
    ensures
        r == 3,
{
    zstd::DEFAULT_COMPRESSION_LEVEL
}

/// Compresses `inp` with zstd at compression `level`: the zstd frame of
/// the input at that level.
pub fn compress(inp: &[u8], level: i32) -> (r: Res<Vec<u8>>)
    ensures
        r is Ok,
        r matches Ok(out) ==> out@ == zstd_encoded(inp@, level as int),
{
    match zstd_copy_encode(inp, level) {
        Ok(out) => Ok(out),
        Err(msg) => Err(Errors::DumpError(msg)),
    }
}

/// Decompresses `inp`, a sequence of zstd frames; what zstd finds wrong
/// with it is a `DumpError` with its text. What `compress` made of some
/// bytes, at any level, decompresses to those bytes.
pub fn decompress(inp: &[u8]) -> (r: Res<Vec<u8>>)
    ensures
        r matches Ok(out) ==> out@ == zstd_decoded(inp@),
        r matches Err(e) ==> e is DumpError,
        forall|s: Seq<u8>, level: int|
            i32::MIN <= level <= i32::MAX && inp@ == #[trigger] zstd_encoded(s, level) ==> r is Ok && r->Ok_0@ == s,
{
    match zstd_decode_all(inp) {
        Ok(out) => Ok(out),
        Err(msg) => Err(Errors::DumpError(msg)),
    }
}

} // verus!
