use vstd::prelude::*;

verus! {

/// The CRC-32 (ISO-HDLC polynomial, as PNG uses it) of a byte sequence.
pub uninterp spec fn crc32_of(s: Seq<u8>) -> u32;

/// The Adler-32 checksum of a byte sequence, as zlib streams carry it.
pub uninterp spec fn adler32_of(s: Seq<u8>) -> u32;

/// Relies on crc32fast::Hasher (new, update, finalize): the CRC-32 of the
/// bytes fed to it, in order, here `head` followed by `tail`.
#[verifier::external_body]
pub(crate) fn crc32(head: &[u8], tail: &[u8]) -> (r: u32)
    ensures
        r == crc32_of(head@ + tail@),
{
    let mut h = crc32fast::Hasher::new();
    h.update(head);
    h.update(tail);
    h.finalize()
}

/// Relies on simd_adler32::Adler32 (new, write, finish): the Adler-32
/// checksum of the bytes written to it.
#[verifier::external_body]
pub(crate) fn adler32(data: &[u8]) -> (r: u32)
    ensures
        r == adler32_of(data@),
{
    let mut a = simd_adler32::Adler32::new();
    a.write(data);
    a.finish()
}

} // verus!
