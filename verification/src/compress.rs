//! Compression of response bodies, as the `flate2` and `brotli` crates perform it.

use vstd::prelude::*;
use crate::response::{BodyEncoding, CompressionLevel};

verus! {

/// The gzip stream that `flate2::write::GzEncoder` gives for the data at a level; `None`
/// where it reports an error.
pub uninterp spec fn gzip_stream(data: Seq<u8>, level: u32) -> Option<Seq<u8>>;

/// The raw deflate stream that `flate2::write::DeflateEncoder` gives for the data at a
/// level; `None` where it reports an error.
pub uninterp spec fn deflate_stream(data: Seq<u8>, level: u32) -> Option<Seq<u8>>;

/// The brotli stream that `brotli::CompressorReader` gives for the data with the given
/// buffer size, quality and window; `None` where it reports an error. The crate is built
/// with its feature `portable-float`, under which the stream is the same on every target.
pub uninterp spec fn brotli_stream(data: Seq<u8>, buffer: usize, quality: u32, window: u32) -> Option<
    Seq<u8>,
>;

#[verifier::external_type_specification]
#[verifier::external_body]
pub struct ExIoError(std::io::Error);

/// The highest level that the encoders of `flate2` take.
pub const HIGHEST_FLATE_LEVEL: u32 = 10;

/// The window, as a power of two, that the brotli compressor works with.
pub const BROTLI_WINDOW: u32 = 20;

/// Feeds the data to a `flate2::write::GzEncoder` over an empty vector and finishes it.
/// The result is the stream named `gzip_stream`. The level is at most 10: the encoder
/// checks that when it is built with debug assertions.
#[verifier::external_body]
fn gzip(data: &[u8], level: u32) -> (r: Result<Vec<u8>, std::io::Error>)
    requires
        level <= 10,
    ensures
        match gzip_stream(data@, level) {
            Some(stream) => r is Ok && r->Ok_0@ == stream,
            None => r is Err,
        },
{
    let mut encoder = flate2::write::GzEncoder::new(Vec::new(), flate2::Compression::new(level));
    std::io::Write::write_all(&mut encoder, data)?;
    encoder.finish()
}

/// Feeds the data to a `flate2::write::DeflateEncoder` over an empty vector and finishes
/// it. The result is the stream named `deflate_stream`. The level is at most 10: the
/// encoder checks that when it is built with debug assertions.
#[verifier::external_body]
fn deflate(data: &[u8], level: u32) -> (r: Result<Vec<u8>, std::io::Error>)
    requires
        level <= 10,
    ensures
        match deflate_stream(data@, level) {
            Some(stream) => r is Ok && r->Ok_0@ == stream,
            None => r is Err,
        },
{
    let mut encoder = flate2::write::DeflateEncoder::new(
        Vec::new(),
        flate2::Compression::new(level),
    );
    std::io::Write::write_all(&mut encoder, data)?;
    encoder.finish()
}

/// Reads a `brotli::CompressorReader` over the data to its end. The result is the stream
/// named `brotli_stream`. That the stream depends on nothing but the four arguments rests
/// on the feature `portable-float` of the `brotli` crate, which keeps the platform's
/// logarithm out of the encoder.
#[verifier::external_body]
fn brotli(data: &[u8], buffer: usize, quality: u32, window: u32) -> (r: Result<
    Vec<u8>,
    std::io::Error,
>)
    ensures
        match brotli_stream(data@, buffer, quality, window) {
            Some(stream) => r is Ok && r->Ok_0@ == stream,
            None => r is Err,
        },
{
    let mut reader = brotli::CompressorReader::new(data, buffer, quality, window);
    let mut out = Vec::new();
    std::io::Read::read_to_end(&mut reader, &mut out)?;
    Ok(out)
}

/// The level to compress at: the one asked for, and the fastest where none is.
pub open spec fn effective_level(level: Option<u32>) -> u32 {
    match level {
        Some(l) => l,
        None => 1,
    }
}

/// The compressed form of the data, where there is one. Gzip and deflate have none above
/// level 10, and no codec has one where it reports an error.
pub open spec fn compressed(encoding: BodyEncoding, level: Option<u32>, data: Seq<u8>) -> Option<
    Seq<u8>,
> {
    let l = effective_level(level);
    match encoding {
        BodyEncoding::Gzip => if l <= HIGHEST_FLATE_LEVEL {
            gzip_stream(data, l)
        } else {
            None
        },
        BodyEncoding::Deflate => if l <= HIGHEST_FLATE_LEVEL {
            deflate_stream(data, l)
        } else {
            None
        },
        BodyEncoding::Brotli => brotli_stream(data, data.len() as usize, l, BROTLI_WINDOW),
    }
}

/// The value of an optional level.
pub open spec fn level_view(level: Option<CompressionLevel>) -> Option<u32> {
    match level {
        Some(l) => Some(l@),
        None => None,
    }
}

/// The value of an optional run of bytes.
pub open spec fn bytes_view(bytes: Option<Vec<u8>>) -> Option<Seq<u8>> {
    match bytes {
        Some(b) => Some(b@),
        None => None,
    }
}

/// Compresses the data with the codec of `encoding`, at `level` or at the fastest level
/// where none is given. A failure of the codec gives `None`.
pub fn compress(encoding: BodyEncoding, level: Option<CompressionLevel>, data: &Vec<u8>) -> (r:
    Option<Vec<u8>>)
    ensures
        bytes_view(r) == compressed(encoding, level_view(level), data@),
{
    let l: u32 = match level {
        Some(l) => l.level(),
        None => CompressionLevel::fast().level(),
    };
    let outcome = match encoding {
        BodyEncoding::Gzip => {
            if l > HIGHEST_FLATE_LEVEL {
                return None;
            }
            gzip(data.as_slice(), l)
        },
        BodyEncoding::Deflate => {
            if l > HIGHEST_FLATE_LEVEL {
                return None;
            }
            deflate(data.as_slice(), l)
        },
        BodyEncoding::Brotli => brotli(data.as_slice(), data.len(), l, BROTLI_WINDOW),
    };
    match outcome {
        Ok(stream) => Some(stream),
        Err(_) => None,
    }
}

} // verus!
