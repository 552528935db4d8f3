//! Identifiers of a sequence of strings in the order given.

use vstd::prelude::*;

use crate::canonical::canonical;
use crate::canonical::deny_null;
use crate::canonical::encode_all;
use crate::canonical::ids_to_bytes;
use crate::canonical::join_spans;
use crate::canonical::joined;
use crate::canonical::present;
use crate::error::FingerprintError;
use crate::fingerprint::farmhash_fingerprint;
use crate::fingerprint::fingerprint128;
use crate::fingerprint::fingerprint64;
use crate::fingerprint::md5_fingerprint;
use crate::fingerprint::md5_of;
use crate::fingerprint::seahash_fingerprint;
use crate::model::texts_view;
use crate::uuid::Uuid;

verus! {

/// The byte `_`, which joins the strings of an MD5 identifier.
pub open spec fn underscore_byte() -> u8 {
    0x5fu8
}

/// The MD5 identifier of a sequence of strings: the digest of the strings
/// joined by `_`. A null among them is rejected.
pub fn id_underscore_md5(a: Vec<Option<String>>) -> (result: Result<Uuid, FingerprintError>)
    ensures
        texts_view(a@).contains(None) ==> result == Err::<Uuid, FingerprintError>(
            FingerprintError::NullValue,
        ),
        !texts_view(a@).contains(None) ==> result is Ok && result.unwrap()@ == md5_of(
            joined(present(texts_view(a@)), underscore_byte()),
        ),
{
    match deny_null(a) {
        Ok(strings) => {
            let spans = encode_all(strings);
            Ok(md5_fingerprint(join_spans(&spans, 0x5fu8)))
        },
        Err(e) => Err(e),
    }
}

/// The 128-bit identifier of a sequence of strings: the fingerprint of their
/// canonical buffer, in the order given. A null among them is rejected.
pub fn id_farmhash(a: Vec<Option<String>>) -> (result: Result<Uuid, FingerprintError>)
    ensures
        texts_view(a@).contains(None) ==> result == Err::<Uuid, FingerprintError>(
            FingerprintError::NullValue,
        ),
        !texts_view(a@).contains(None) ==> result is Ok && result.unwrap()@ == fingerprint128(
            canonical(present(texts_view(a@))),
        ),
{
    match ids_to_bytes(a) {
        Ok(buffer) => Ok(farmhash_fingerprint(buffer)),
        Err(e) => Err(e),
    }
}

/// The 64-bit identifier of a sequence of strings: the fingerprint of their
/// canonical buffer, in the order given. A null among them is rejected.
pub fn id_seahash(a: Vec<Option<String>>) -> (result: Result<i64, FingerprintError>)
    ensures
        texts_view(a@).contains(None) ==> result == Err::<i64, FingerprintError>(
            FingerprintError::NullValue,
        ),
        !texts_view(a@).contains(None) ==> result is Ok && result.unwrap() == fingerprint64(
            canonical(present(texts_view(a@))),
        ),
{
    match ids_to_bytes(a) {
        Ok(buffer) => Ok(seahash_fingerprint(buffer)),
        Err(e) => Err(e),
    }
}

} // verus!
