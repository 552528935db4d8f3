//! Checksums of a flat sequence of keys and values, insensitive to the order
//! of the pairs.

use vstd::prelude::*;

use crate::error::FingerprintError;
use crate::fingerprint::farmhash_fingerprint;
use crate::fingerprint::fingerprint128;
use crate::fingerprint::fingerprint64;
use crate::fingerprint::seahash_fingerprint;
use crate::model::texts_view;
use crate::normalize::normalized_bytes;
use crate::normalize::normalized_pairs_bytes;
use crate::normalize::NullPolicy;
use crate::uuid::Uuid;

verus! {

/// The 128-bit checksum of keys and values, where a null value counts as
/// empty and a pair with a null key is dropped. Odd length is rejected.
pub fn checksum_farmhash(a: Vec<Option<String>>) -> (result: Result<Uuid, FingerprintError>)
    ensures
        a@.len() % 2 != 0 ==> result == Err::<Uuid, FingerprintError>(
            FingerprintError::InvalidArity,
        ),
        a@.len() % 2 == 0 ==> result is Ok && result.unwrap()@ == fingerprint128(
            normalized_bytes(texts_view(a@), NullPolicy::KeepNullValues),
        ),
{
    match normalized_pairs_bytes(a, NullPolicy::KeepNullValues) {
        Ok(buffer) => Ok(farmhash_fingerprint(buffer)),
        Err(e) => Err(e),
    }
}

/// The 128-bit checksum of keys and values, where a pair with a null key or
/// a null value is dropped. Odd length is rejected.
pub fn checksum_farmhash_extendable(a: Vec<Option<String>>) -> (result: Result<
    Uuid,
    FingerprintError,
>)
    ensures
        a@.len() % 2 != 0 ==> result == Err::<Uuid, FingerprintError>(
            FingerprintError::InvalidArity,
        ),
        a@.len() % 2 == 0 ==> result is Ok && result.unwrap()@ == fingerprint128(
            normalized_bytes(texts_view(a@), NullPolicy::Strict),
        ),
{
    match normalized_pairs_bytes(a, NullPolicy::Strict) {
        Ok(buffer) => Ok(farmhash_fingerprint(buffer)),
        Err(e) => Err(e),
    }
}

/// The 64-bit checksum of keys and values, where a null value counts as
/// empty and a pair with a null key is dropped. Odd length is rejected.
pub fn checksum_seahash(a: Vec<Option<String>>) -> (result: Result<i64, FingerprintError>)
    ensures
        a@.len() % 2 != 0 ==> result == Err::<i64, FingerprintError>(
            FingerprintError::InvalidArity,
        ),
        a@.len() % 2 == 0 ==> result is Ok && result.unwrap() == fingerprint64(
            normalized_bytes(texts_view(a@), NullPolicy::KeepNullValues),
        ),
{
    match normalized_pairs_bytes(a, NullPolicy::KeepNullValues) {
        Ok(buffer) => Ok(seahash_fingerprint(buffer)),
        Err(e) => Err(e),
    }
}

/// The 64-bit checksum of keys and values, where a pair with a null key or a
/// null value is dropped. Odd length is rejected.
pub fn checksum_seahash_extendable(a: Vec<Option<String>>) -> (result: Result<
    i64,
    FingerprintError,
>)
    ensures
        a@.len() % 2 != 0 ==> result == Err::<i64, FingerprintError>(
            FingerprintError::InvalidArity,
        ),
        a@.len() % 2 == 0 ==> result is Ok && result.unwrap() == fingerprint64(
            normalized_bytes(texts_view(a@), NullPolicy::Strict),
        ),
{
    match normalized_pairs_bytes(a, NullPolicy::Strict) {
        Ok(buffer) => Ok(seahash_fingerprint(buffer)),
        Err(e) => Err(e),
    }
}

} // verus!
