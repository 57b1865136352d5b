//! The two checksums that the zlib and PNG containers require, relied on
//! from the adler and crc crates.

use vstd::prelude::*;

verus! {

/// The Adler-32 checksum of a byte string, as the zlib format defines it.
pub uninterp spec fn adler32_of(data: Seq<u8>) -> u32;

/// The CRC-32 checksum of a byte string with the ISO-HDLC polynomial and
/// reflected convention, as the PNG format requires it.
pub uninterp spec fn crc32_of(data: Seq<u8>) -> u32;

/// Relies on adler::adler32_slice: the Adler-32 checksum of the bytes,
/// which depends on the bytes alone.
#[verifier::external_body]
pub(crate) fn adler32(data: &[u8]) -> (r: u32)
    ensures
        r == adler32_of(data@),
{
    adler::adler32_slice(data)
}

/// Relies on crc::Crc::<u32>::checksum with the CRC_32_ISO_HDLC algorithm:
/// the CRC-32 of the bytes, which depends on the bytes alone.
#[verifier::external_body]
pub(crate) fn crc32(data: &[u8]) -> (r: u32)
    ensures
        r == crc32_of(data@),
{
    crc::Crc::<u32>::new(&crc::CRC_32_ISO_HDLC).checksum(data)
}

} // verus!
