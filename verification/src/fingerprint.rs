//! The fingerprint backends: a canonical buffer hashed to a signed 64-bit
//! number or to a 128-bit identifier.
//!
//! The hash functions themselves belong to other crates. Each is a function
//! of the bytes alone, so its result has a name here, and nothing more is
//! claimed of it. What is done with a digest afterwards is verified.

use bytes::Bytes;
use vstd::prelude::*;

use crate::buffer::bytes_view;
use crate::uuid::le_bytes;
use crate::uuid::Uuid;

verus! {

/// The SeaHash digest of a byte string.
pub uninterp spec fn seahash_of(data: Seq<u8>) -> u64;

/// The 128-bit FarmHash fingerprint of a byte string.
pub uninterp spec fn farmhash_fingerprint128_of(data: Seq<u8>) -> u128;

/// The sixteen bytes of the MD5 digest of a byte string.
pub uninterp spec fn md5_of(data: Seq<u8>) -> Seq<u8>;

/// `seahash::hash`: the SeaHash digest of the buffer's bytes, with the
/// crate's fixed seed. The digest depends on the bytes alone and is the same
/// on every machine.
#[verifier::external_body]
pub(crate) fn seahash_hash(data: &Bytes) -> (digest: u64)
    ensures
        digest == seahash_of(bytes_view(*data)),
{
    seahash::hash(data)
}

/// `fasthash::farm::fingerprint128`: the 128-bit FarmHash fingerprint of the
/// buffer's bytes, a fixed function of the bytes alone.
#[verifier::external_body]
pub(crate) fn farm_fingerprint128(data: &Bytes) -> (digest: u128)
    ensures
        digest == farmhash_fingerprint128_of(bytes_view(*data)),
{
    fasthash::farm::fingerprint128(data)
}

/// `md5::compute`: the MD5 digest of the buffer's bytes, as its sixteen
/// bytes.
#[verifier::external_body]
pub(crate) fn md5_compute(data: &Bytes) -> (digest: [u8; 16])
    ensures
        digest@ == md5_of(bytes_view(*data)),
{
    md5::compute(data).0
}

/// The signed number with the same 64 bits as `digest`, in two's complement.
pub open spec fn signed_of(digest: u64) -> i64 {
    if digest < 0x8000_0000_0000_0000 {
        digest as i64
    } else {
        (digest - 0x1_0000_0000_0000_0000) as i64
    }
}

/// The unsigned number with the same 64 bits as `id`, in two's complement.
pub open spec fn unsigned_of(id: i64) -> u64 {
    if id >= 0 {
        id as u64
    } else {
        (id + 0x1_0000_0000_0000_0000) as u64
    }
}

/// Reinterpreting a digest as a signed number loses nothing: reinterpreting
/// the signed number gives the digest back, and the other way round. The two
/// are inverse bijections between all unsigned and all signed 64-bit numbers.
pub proof fn lemma_reinterpretation_is_bijective(digest: u64, id: i64)
    ensures
        unsigned_of(signed_of(digest)) == digest,
        signed_of(unsigned_of(id)) == id,
        signed_of(digest) == id <==> digest == unsigned_of(id),
{
}

/// Reinterprets the bits of an unsigned digest as a signed number.
pub fn reinterpret_signed(digest: u64) -> (id: i64)
    ensures
        id == signed_of(digest),
{
    if digest < 0x8000_0000_0000_0000 {
        digest as i64
    } else {
        let low: u64 = digest - 0x8000_0000_0000_0000;
        (low as i64) + i64::MIN
    }
}

/// Reinterprets the bits of a signed number as an unsigned digest.
pub fn reinterpret_unsigned(id: i64) -> (digest: u64)
    ensures
        digest == unsigned_of(id),
{
    if id >= 0 {
        id as u64
    } else {
        let low: i64 = id - i64::MIN;
        (low as u64) + 0x8000_0000_0000_0000
    }
}

/// The 64-bit fingerprint of a byte string: its SeaHash digest, reinterpreted
/// as a signed number.
pub open spec fn fingerprint64(data: Seq<u8>) -> i64 {
    signed_of(seahash_of(data))
}

/// The 64-bit fingerprint keeps every bit of the digest: reinterpreted as an
/// unsigned number, it is the digest again.
pub proof fn lemma_fingerprint64_keeps_digest(data: Seq<u8>)
    ensures
        unsigned_of(fingerprint64(data)) == seahash_of(data),
{
}

/// The 128-bit fingerprint of a byte string: the bytes of its FarmHash
/// fingerprint, least significant first.
pub open spec fn fingerprint128(data: Seq<u8>) -> Seq<u8> {
    le_bytes(farmhash_fingerprint128_of(data))
}

/// The 64-bit fingerprint of a buffer.
pub fn seahash_fingerprint(a: Bytes) -> (id: i64)
    ensures
        id == fingerprint64(bytes_view(a)),
{
    let digest = seahash_hash(&a);
    reinterpret_signed(digest)
}

/// The 128-bit fingerprint of a buffer.
pub fn farmhash_fingerprint(a: Bytes) -> (id: Uuid)
    ensures
        id@ == fingerprint128(bytes_view(a)),
{
    let digest = farm_fingerprint128(&a);
    Uuid::from_u128_le(digest)
}

/// The MD5 digest of a buffer as an identifier.
pub fn md5_fingerprint(a: Bytes) -> (id: Uuid)
    ensures
        id@ == md5_of(bytes_view(a)),
{
    Uuid::from_bytes(md5_compute(&a))
}

} // verus!
