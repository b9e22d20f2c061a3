//! Trusted gateway to gzip compression. The contracts are phrased through
//! the decompression function alone, so nothing needs to be assumed about
//! the exact bytes the encoder emits — only that they decompress back to
//! the input, which is what a lossless codec promises.

use std::io::{Read, Write};
use vstd::prelude::*;

verus! {

/// What gunzip makes of a byte string: the decompressed payload, or `None`
/// when the bytes are not a valid gzip stream.
pub uninterp spec fn gunzip_of(bytes: Seq<u8>) -> Option<Seq<u8>>;

/// Relies on `flate2::write::GzEncoder`: gzip is lossless, so the emitted
/// stream decompresses to exactly the input, and writing into a `Vec`
/// cannot fail.
#[verifier::external_body]
pub fn gzip_compress(content: &[u8], level: u32) -> (r: Result<Vec<u8>, ()>)
    requires
        level <= 9,
    ensures
        r is Ok,
        r matches Ok(c) ==> gunzip_of(c@) == Some(content@),
{
    let mut buff = Vec::new();
    let mut gz = flate2::write::GzEncoder::new(&mut buff, flate2::Compression::new(level));
    if gz.write_all(content).is_err() {
        return Err(());
    }
    if gz.finish().is_err() {
        return Err(());
    }
    Ok(buff)
}

/// Relies on `flate2::read::GzDecoder`: decompression is a function of the
/// input bytes; it succeeds exactly on valid gzip streams.
#[verifier::external_body]
pub fn gzip_decompress(bytes: &[u8]) -> (r: Result<Vec<u8>, ()>)
    ensures
        r matches Ok(d) ==> Some(d@) == gunzip_of(bytes@),
        r is Err ==> gunzip_of(bytes@) is None,
{
    let mut buff = Vec::new();
    let mut gz = flate2::read::GzDecoder::new(bytes);
    match gz.read_to_end(&mut buff) {
        Ok(_) => Ok(buff),
        Err(_) => Err(()),
    }
}

} // verus!
