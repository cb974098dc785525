use vstd::prelude::*;

verus! {

/// The CRC-32 of a byte sequence under the IEEE polynomial, as the `crc`
/// crate computes it. The exact value is left abstract: the frame protocol
/// only needs that it is a function of the bytes alone.
pub uninterp spec fn crc32_of(s: Seq<u8>) -> u32;

#[verifier::external_type_specification]
#[verifier::external_body]
pub struct ExDigest(crc::crc32::Digest);

/// The bytes fed so far into a rolling CRC-32 digest made by `ieee_digest`.
pub uninterp spec fn digest_bytes(d: crc::crc32::Digest) -> Seq<u8>;

/// Relies on crc::crc32::Digest::new with the IEEE polynomial: a fresh
/// digest has processed no bytes. Every digest in this crate is made here,
/// so `digest_bytes` and `crc32_of` always speak of IEEE digests.
#[verifier::external_body]
pub(crate) fn ieee_digest() -> (d: crc::crc32::Digest)
    ensures
        digest_bytes(d) == Seq::<u8>::empty(),
{
    crc::crc32::Digest::new(crc::crc32::IEEE)
}

/// Relies on crc::crc32::Hasher32::write: folds the bytes into the rolling
/// digest, in order, after everything written before.
#[verifier::external_body]
pub(crate) fn digest_write(d: &mut crc::crc32::Digest, bytes: &[u8])
    ensures
        digest_bytes(*final(d)) == digest_bytes(*old(d)) + bytes@,
{
    crc::crc32::Hasher32::write(d, bytes)
}

/// Relies on std::hash::Hasher::write_u8 (crc's Digest implements Hasher
/// on top of Hasher32::write): folds one byte into the rolling digest.
#[verifier::external_body]
pub(crate) fn digest_write_u8(d: &mut crc::crc32::Digest, byte: u8)
    ensures
        digest_bytes(*final(d)) == digest_bytes(*old(d)).push(byte),
{
    std::hash::Hasher::write_u8(d, byte)
}

/// Relies on crc::crc32::Hasher32::sum32: the CRC-32 of everything written
/// so far. The crc crate folds each write into `value` with its `update`,
/// which composes, so the sum depends only on the concatenated bytes.
#[verifier::external_body]
pub(crate) fn digest_sum32(d: &crc::crc32::Digest) -> (r: u32)
    ensures
        r == crc32_of(digest_bytes(*d)),
{
    crc::crc32::Hasher32::sum32(d)
}

} // verus!
