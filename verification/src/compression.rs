//! Decoding of archive payloads and general-purpose re-encoding for
//! transfer. The outside codecs stay behind named results: each is a pure
//! function of its input, stated but not spelled out.

use vstd::prelude::*;
use std::io::Read;
use crate::errors::Error;
use crate::zip::LocalFile;

verus! {

/// What the deflate decoder returns on a payload; `None` when the payload is
/// not a well-formed deflate stream.
pub uninterp spec fn inflate_decoded(bytes: Seq<u8>) -> Option<Seq<u8>>;

/// What the brotli decoder returns on a payload; `None` when the payload is
/// not a well-formed brotli stream.
pub uninterp spec fn brotli_decoded(bytes: Seq<u8>) -> Option<Seq<u8>>;

/// What the brotli encoder produces on raw bytes at the fixed maximum
/// quality; `None` when encoding fails.
pub uninterp spec fn brotli_encoded(bytes: Seq<u8>) -> Option<Seq<u8>>;

/// The CRC32 checksum of a byte sequence.
pub uninterp spec fn crc32_of(bytes: Seq<u8>) -> u32;

/// An optional byte buffer, seen as an optional byte sequence.
pub open spec fn opt_bytes_view(r: Option<Vec<u8>>) -> Option<Seq<u8>> {
    match r {
        Some(v) => Some(v@),
        None => None,
    }
}

/// A decode outcome, seen at the byte-sequence level.
pub open spec fn res_bytes_view(r: Result<Vec<u8>, Error>) -> Result<Seq<u8>, Error> {
    match r {
        Ok(v) => Ok(v@),
        Err(e) => Err(e),
    }
}

/// Relies on the inflate crate's `inflate_bytes`: a pure function of the
/// payload, `Ok` exactly on well-formed raw deflate streams.
#[verifier::external_body]
pub fn inflate(bytes: &[u8]) -> (r: Option<Vec<u8>>)
    ensures
        opt_bytes_view(r) == inflate_decoded(bytes@),
{
    inflate::inflate_bytes(bytes).ok()
}

/// Relies on brotli's `CompressorReader` over an in-memory slice, quality
/// fixed at 11: a pure function of the input bytes.
#[verifier::external_body]
pub fn compress_brotli(bytes: &[u8]) -> (r: Option<Vec<u8>>)
    ensures
        opt_bytes_view(r) == brotli_encoded(bytes@),
{
    let params = brotli::enc::BrotliEncoderParams { quality: 11, ..Default::default() };
    let mut out = Vec::new();
    let mut reader = brotli::CompressorReader::with_params(bytes, 16_384, &params);
    match reader.read_to_end(&mut out) {
        Ok(_) => Some(out),
        Err(_) => None,
    }
}

/// Relies on brotli's `BrotliDecompress` over in-memory buffers: a pure
/// function of the payload, `Ok` exactly on well-formed brotli streams.
#[verifier::external_body]
pub fn brotli_decompress(bytes: &[u8]) -> (r: Option<Vec<u8>>)
    ensures
        opt_bytes_view(r) == brotli_decoded(bytes@),
{
    let mut cursor = std::io::Cursor::new(bytes);
    let mut out = Vec::new();
    match brotli::BrotliDecompress(&mut cursor, &mut out) {
        Ok(()) => Some(out),
        Err(_) => None,
    }
}

/// Relies on `crc32fast::hash`: the CRC32 of the bytes, a pure function.
#[verifier::external_body]
pub fn crc32(bytes: &[u8]) -> (r: u32)
    ensures
        r == crc32_of(bytes@),
{
    crc32fast::hash(bytes)
}

/// The decoded raw bytes of a local file's payload: a stored payload passes
/// through unchanged; a deflate payload must inflate to exactly the declared
/// uncompressed length; any other method is unsupported.
pub open spec fn spec_decode(method: int, payload: Seq<u8>, uncompressed_len: int) -> Result<
    Seq<u8>,
    Error,
> {
    if method == 0 {
        Ok(payload)
    } else if method == 8 {
        match inflate_decoded(payload) {
            Some(v) => if v.len() == uncompressed_len {
                Ok(v)
            } else {
                Err(Error::CorruptArchive)
            },
            None => Err(Error::CorruptArchive),
        }
    } else {
        Err(Error::UnsupportedCompression)
    }
}

/// Decodes a local file's payload to raw bytes.
pub fn decompress_entry(f: LocalFile) -> (r: Result<Vec<u8>, Error>)
    ensures
        res_bytes_view(r) == spec_decode(f.method as int, f.payload@, f.uncompressed_size as int),
{
    if f.method == 0 {
        Ok(f.payload)
    } else if f.method == 8 {
        match inflate(f.payload.as_slice()) {
            Some(v) => {
                if v.len() == f.uncompressed_size as usize {
                    Ok(v)
                } else {
                    Err(Error::CorruptArchive)
                }
            },
            None => Err(Error::CorruptArchive),
        }
    } else {
        Err(Error::UnsupportedCompression)
    }
}

/// The CRC32 of what a brotli payload decodes to, when it decodes at all.
pub open spec fn spec_brotli_crc32(bytes: Seq<u8>) -> Option<u32> {
    match brotli_decoded(bytes) {
        Some(v) => Some(crc32_of(v)),
        None => None,
    }
}

/// Decompresses a brotli payload and returns the CRC32 of the result, used
/// only to verify a compressed sibling against its original entry.
pub fn brotli_decompressed_crc32(bytes: &[u8]) -> (r: Option<u32>)
    ensures
        r == spec_brotli_crc32(bytes@),
{
    match brotli_decompress(bytes) {
        Some(v) => Some(crc32(v.as_slice())),
        None => None,
    }
}

} // verus!
