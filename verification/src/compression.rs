//! Compression formats used by repository index files and `.deb` members,
//! with verified dispatch over trusted encoder/decoder calls.

use vstd::prelude::*;
use vstd::string::*;
use crate::checksum::clone_bytes;
use crate::error::DebianError;
use std::io::Read;
use std::io::Write;

verus! {

// ---------------------------------------------------------------------------
// Index-file compression formats
// ---------------------------------------------------------------------------

/// Compression format of a repository index file, recognized by its
/// canonical filename suffix.
#[derive(Clone, Copy, Debug, PartialEq, Eq, Structural)]
pub enum Compression {
    /// No compression.
    Plain,
    Gzip,
    Xz,
    Bzip2,
    Lzma,
    Zstd,
}

impl Compression {
    /// Canonical filename suffix for this format.
    pub fn extension(&self) -> (r: &'static str)
        ensures
            (*self == Compression::Plain ==> r@ == ""@),
            (*self == Compression::Gzip ==> r@ == ".gz"@),
            (*self == Compression::Xz ==> r@ == ".xz"@),
            (*self == Compression::Bzip2 ==> r@ == ".bz2"@),
            (*self == Compression::Lzma ==> r@ == ".lzma"@),
            (*self == Compression::Zstd ==> r@ == ".zst"@),
    {
        match self {
            Compression::Plain => "",
            Compression::Gzip => ".gz",
            Compression::Xz => ".xz",
            Compression::Bzip2 => ".bz2",
            Compression::Lzma => ".lzma",
            Compression::Zstd => ".zst",
        }
    }

    /// The fallback order used when an index file is not published under
    /// the caller's preferred format.
    pub fn default_preferred_order() -> (r: Vec<Compression>)
        ensures
            r@ == seq![
                Compression::Xz,
                Compression::Bzip2,
                Compression::Gzip,
                Compression::Lzma,
                Compression::Plain,
                Compression::Zstd,
            ],
    {
        let mut r: Vec<Compression> = Vec::new();
        r.push(Compression::Xz);
        r.push(Compression::Bzip2);
        r.push(Compression::Gzip);
        r.push(Compression::Lzma);
        r.push(Compression::Plain);
        r.push(Compression::Zstd);
        proof {
            assert(r@ =~= seq![
                Compression::Xz,
                Compression::Bzip2,
                Compression::Gzip,
                Compression::Lzma,
                Compression::Plain,
                Compression::Zstd,
            ]);
        }
        r
    }
}

// ---------------------------------------------------------------------------
// Trusted decoder calls
// ---------------------------------------------------------------------------

pub uninterp spec fn gzip_decode_spec(data: Seq<u8>) -> Option<Seq<u8>>;

pub uninterp spec fn xz_decode_spec(data: Seq<u8>) -> Option<Seq<u8>>;

pub uninterp spec fn bzip2_decode_spec(data: Seq<u8>) -> Option<Seq<u8>>;

pub uninterp spec fn lzma_decode_spec(data: Seq<u8>) -> Option<Seq<u8>>;

pub uninterp spec fn zstd_decode_spec(data: Seq<u8>) -> Option<Seq<u8>>;

/// Relies on libflate::gzip::Decoder: decompression is a function of the
/// input bytes alone, and fails exactly on malformed input.
#[verifier::external_body]
fn gzip_decode(data: &Vec<u8>) -> (r: Option<Vec<u8>>)
    ensures
        r is Some <==> gzip_decode_spec(data@) is Some,
        r matches Some(out) ==> out@ == gzip_decode_spec(data@).unwrap(),
{
    let mut decoder = libflate::gzip::Decoder::new(std::io::Cursor::new(data)).ok()?;
    let mut out = Vec::new();
    decoder.read_to_end(&mut out).ok()?;
    Some(out)
}

/// Relies on xz2::read::XzDecoder: decompression is a function of the
/// input bytes alone, and fails exactly on malformed input.
#[verifier::external_body]
fn xz_decode(data: &Vec<u8>) -> (r: Option<Vec<u8>>)
    ensures
        r is Some <==> xz_decode_spec(data@) is Some,
        r matches Some(out) ==> out@ == xz_decode_spec(data@).unwrap(),
{
    let mut decoder = xz2::read::XzDecoder::new(std::io::Cursor::new(data));
    let mut out = Vec::new();
    decoder.read_to_end(&mut out).ok()?;
    Some(out)
}

/// Relies on bzip2::read::BzDecoder: decompression is a function of the
/// input bytes alone, and fails exactly on malformed input.
#[verifier::external_body]
fn bzip2_decode(data: &Vec<u8>) -> (r: Option<Vec<u8>>)
    ensures
        r is Some <==> bzip2_decode_spec(data@) is Some,
        r matches Some(out) ==> out@ == bzip2_decode_spec(data@).unwrap(),
{
    let mut decoder = bzip2::read::BzDecoder::new(std::io::Cursor::new(data));
    let mut out = Vec::new();
    decoder.read_to_end(&mut out).ok()?;
    Some(out)
}

/// Relies on xz2::stream::Stream::new_lzma_decoder and
/// xz2::bufread::XzDecoder::new_stream: decompression of the legacy lzma
/// container is a function of the input bytes alone, and fails exactly on
/// malformed input.
#[verifier::external_body]
fn lzma_decode(data: &Vec<u8>) -> (r: Option<Vec<u8>>)
    ensures
        r is Some <==> lzma_decode_spec(data@) is Some,
        r matches Some(out) ==> out@ == lzma_decode_spec(data@).unwrap(),
{
    let stream = xz2::stream::Stream::new_lzma_decoder(u64::MAX).ok()?;
    let mut decoder = xz2::bufread::XzDecoder::new_stream(std::io::Cursor::new(data), stream);
    let mut out = Vec::new();
    decoder.read_to_end(&mut out).ok()?;
    Some(out)
}

/// Relies on zstd::stream::decode_all: decompression is a function of the
/// input bytes alone, and fails exactly on malformed input.
#[verifier::external_body]
fn zstd_decode(data: &Vec<u8>) -> (r: Option<Vec<u8>>)
    ensures
        r is Some <==> zstd_decode_spec(data@) is Some,
        r matches Some(out) ==> out@ == zstd_decode_spec(data@).unwrap(),
{
    zstd::stream::decode_all(std::io::Cursor::new(data)).ok()
}

/// What decoding `data` under format `c` yields; the identity for
/// uncompressed data.
pub open spec fn decompress_spec(c: Compression, data: Seq<u8>) -> Option<Seq<u8>> {
    match c {
        Compression::Plain => Some(data),
        Compression::Gzip => gzip_decode_spec(data),
        Compression::Xz => xz_decode_spec(data),
        Compression::Bzip2 => bzip2_decode_spec(data),
        Compression::Lzma => lzma_decode_spec(data),
        Compression::Zstd => zstd_decode_spec(data),
    }
}

/// Decode `data` under format `c`; `None` exactly on malformed input.
pub fn decompress(c: Compression, data: &Vec<u8>) -> (r: Option<Vec<u8>>)
    ensures
        r is Some <==> decompress_spec(c, data@) is Some,
        r matches Some(out) ==> out@ == decompress_spec(c, data@).unwrap(),
{
    match c {
        Compression::Plain => Some(clone_bytes(data)),
        Compression::Gzip => gzip_decode(data),
        Compression::Xz => xz_decode(data),
        Compression::Bzip2 => bzip2_decode(data),
        Compression::Lzma => lzma_decode(data),
        Compression::Zstd => zstd_decode(data),
    }
}

// ---------------------------------------------------------------------------
// Trusted encoder calls
// ---------------------------------------------------------------------------

/// Relies on libflate::gzip::Encoder: whatever stream it produces decodes
/// back to the input, and encoding into a `Vec`, whose writes cannot
/// fail, always succeeds.
#[verifier::external_body]
fn gzip_encode(data: &Vec<u8>) -> (r: Option<Vec<u8>>)
    ensures
        r is Some,
        r matches Some(out) ==> gzip_decode_spec(out@) == Some(data@),
{
    let mut encoder = libflate::gzip::Encoder::new(Vec::new()).ok()?;
    encoder.write_all(data).ok()?;
    encoder.finish().into_result().ok()
}

/// Relies on xz2::stream::Stream::new_easy_encoder and
/// xz2::write::XzEncoder::new_stream: whatever stream the encoder
/// produces at the given preset decodes back to the input, and the
/// presets `0..=9` are always accepted (encoding into a `Vec` cannot
/// fail).
#[verifier::external_body]
fn xz_encode(data: &Vec<u8>, level: u32) -> (r: Option<Vec<u8>>)
    ensures
        level <= 9 ==> r is Some,
        r matches Some(out) ==> xz_decode_spec(out@) == Some(data@),
{
    let stream = xz2::stream::Stream::new_easy_encoder(level, xz2::stream::Check::Crc64).ok()?;
    let mut encoder = xz2::write::XzEncoder::new_stream(Vec::new(), stream);
    encoder.write_all(data).ok()?;
    encoder.finish().ok()
}

/// Relies on zstd::stream::encode_all: whatever stream it produces at the
/// given level decodes back to the input, and the documented levels —
/// `0` for the default, `1..=22` — are always accepted (encoding into
/// a `Vec` cannot fail).
#[verifier::external_body]
fn zstd_encode(data: &Vec<u8>, level: i32) -> (r: Option<Vec<u8>>)
    ensures
        0 <= level <= 22 ==> r is Some,
        r matches Some(out) ==> zstd_decode_spec(out@) == Some(data@),
{
    zstd::stream::encode_all(std::io::Cursor::new(data), level).ok()
}

// ---------------------------------------------------------------------------
// .deb member compression
// ---------------------------------------------------------------------------

/// Compression format applied to members of a `.deb` archive.
#[derive(Clone, Copy, Debug, PartialEq, Eq, Structural)]
pub enum DebCompression {
    /// Store members uncompressed.
    Uncompressed,
    /// Compress as `.gz`.
    Gzip,
    /// Compress as `.xz` at the given preset.
    Xz(u32),
    /// Compress as `.zst` at the given level.
    Zstandard(i32),
}

impl DebCompression {
    /// Filename extension for this compression format.
    pub fn extension(&self) -> (r: &'static str)
        ensures
            (self matches DebCompression::Uncompressed ==> r@ == ""@),
            (self matches DebCompression::Gzip ==> r@ == ".gz"@),
            (self matches DebCompression::Xz(_) ==> r@ == ".xz"@),
            (self matches DebCompression::Zstandard(_) ==> r@ == ".zst"@),
    {
        match self {
            DebCompression::Uncompressed => "",
            DebCompression::Gzip => ".gz",
            DebCompression::Xz(_) => ".xz",
            DebCompression::Zstandard(_) => ".zst",
        }
    }

    /// Compress `data`; the result decodes back to `data` under the
    /// matching decoder. Uncompressed data is returned as it is, gzip
    /// encoding always succeeds, and xz and zstd succeed at every
    /// preset their encoders document (`0..=9` and `0..=22`).
    pub fn compress(&self, data: &Vec<u8>) -> (r: Result<Vec<u8>, DebianError>)
        ensures
            self matches DebCompression::Uncompressed ==> (r matches Ok(out) && out@ == data@),
            self matches DebCompression::Gzip ==> (r matches Ok(out) && gzip_decode_spec(out@)
                == Some(data@)),
            self matches DebCompression::Xz(level) ==> ((*level <= 9 ==> r is Ok) && (r
                matches Ok(out) ==> xz_decode_spec(out@) == Some(data@))),
            self matches DebCompression::Zstandard(level) ==> (((0 <= *level && *level <= 22)
                ==> r is Ok) && (r matches Ok(out) ==> zstd_decode_spec(out@) == Some(data@))),
    {
        match self {
            DebCompression::Uncompressed => Ok(clone_bytes(data)),
            DebCompression::Gzip => {
                match gzip_encode(data) {
                    Some(out) => Ok(out),
                    None => Err(DebianError::Io(String::from_str("gzip encoding failed"))),
                }
            },
            DebCompression::Xz(level) => {
                match xz_encode(data, *level) {
                    Some(out) => Ok(out),
                    None => Err(DebianError::Io(String::from_str("xz encoding failed"))),
                }
            },
            DebCompression::Zstandard(level) => {
                match zstd_encode(data, *level) {
                    Some(out) => Ok(out),
                    None => Err(DebianError::Io(String::from_str("zstd encoding failed"))),
                }
            },
        }
    }
}

} // verus!
