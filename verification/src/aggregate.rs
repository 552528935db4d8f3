//! The streaming aggregates: values are buffered one at a time and
//! fingerprinted together when the group ends.
//!
//! An aggregate starts empty, takes any number of values, and is emptied again
//! by `finalize`, which fingerprints the buffered values in the order in which
//! they came. Nothing is sorted and no repeat is removed.

use vstd::prelude::*;

use crate::canonical::canonical;
use crate::canonical::id_iter_to_bytes;
use crate::error::FingerprintError;
use crate::fingerprint::farmhash_fingerprint;
use crate::fingerprint::fingerprint128;
use crate::fingerprint::fingerprint64;
use crate::fingerprint::seahash_fingerprint;
use crate::model::strings_view;
use crate::model::text_view;
use crate::uuid::Uuid;

verus! {

/// The buffer after one more value: the value is added at the end.
pub open spec fn after_value(buffered: Seq<Seq<u8>>, value: Seq<u8>) -> Seq<Seq<u8>> {
    buffered.push(value)
}

/// The buffer after each of `values` in turn, starting from `buffered`.
pub open spec fn after_values(buffered: Seq<Seq<u8>>, values: Seq<Seq<u8>>) -> Seq<Seq<u8>>
    decreases values.len(),
{
    if values.len() == 0 {
        buffered
    } else {
        after_value(after_values(buffered, values.drop_last()), values.last())
    }
}

/// Streaming agrees with the bulk path: an empty state that is fed the values
/// one at a time buffers exactly those values, so what `finalize` fingerprints
/// is the canonical buffer of the values in their order, for no value, one
/// value or more.
pub proof fn lemma_stream_equals_bulk(values: Seq<Seq<u8>>)
    ensures
        after_values(Seq::empty(), values) == values,
        fingerprint64(canonical(after_values(Seq::empty(), values))) == fingerprint64(
            canonical(values),
        ),
        fingerprint128(canonical(after_values(Seq::empty(), values))) == fingerprint128(
            canonical(values),
        ),
    decreases values.len(),
{
    if values.len() > 0 {
        lemma_stream_equals_bulk(values.drop_last());
        assert(values.drop_last().push(values.last()) =~= values);
    } else {
        assert(values =~= Seq::<Seq<u8>>::empty());
    }
}

/// The state of the 64-bit streaming aggregate.
#[derive(Clone, Debug)]
pub struct SeahashState {
    data: Vec<String>,
}

impl View for SeahashState {
    type V = Seq<Seq<u8>>;

    /// The encoded values that are buffered, oldest first.
    closed spec fn view(&self) -> Seq<Seq<u8>> {
        strings_view(self.data@)
    }
}

impl Default for SeahashState {
    /// The empty state that every group starts from.
    fn default() -> (state: Self)
        ensures
            state@ == Seq::<Seq<u8>>::empty(),
    {
        let state = SeahashState { data: Vec::new() };
        proof {
            assert(state@ =~= Seq::<Seq<u8>>::empty());
        }
        state
    }
}

impl SeahashState {
    /// The state that has buffered the given values, oldest first.
    pub fn from_values(data: Vec<String>) -> (state: SeahashState)
        ensures
            state@ == strings_view(data@),
    {
        SeahashState { data }
    }

    /// The values that the state has buffered, oldest first.
    pub fn into_values(self) -> (data: Vec<String>)
        ensures
            strings_view(data@) == self@,
    {
        self.data
    }

    /// Buffers one more value. A null is rejected, whatever the state.
    pub fn state(current: SeahashState, arg: Option<String>) -> (result: Result<
        SeahashState,
        FingerprintError,
    >)
        ensures
            arg is None ==> result == Err::<SeahashState, FingerprintError>(
                FingerprintError::NullValue,
            ),
            arg is Some ==> result is Ok && result.unwrap()@ == after_value(
                current@,
                text_view(arg).unwrap(),
            ),
    {
        let mut current = current;
        match arg {
            Some(value) => {
                let ghost before = current@;
                current.data.push(value);
                proof {
                    assert(current@ =~= before.push(text_view(arg).unwrap()));
                }
                Ok(current)
            },
            None => Err(FingerprintError::NullValue),
        }
    }

    /// Fingerprints the buffered values in the order in which they came, and
    /// empties the state.
    pub fn finalize(current: &mut SeahashState) -> (id: i64)
        ensures
            id == fingerprint64(canonical(old(current)@)),
            final(current)@ == Seq::<Seq<u8>>::empty(),
    {
        let mut data: Vec<String> = Vec::new();
        core::mem::swap(&mut current.data, &mut data);
        proof {
            assert(current@ =~= Seq::<Seq<u8>>::empty());
        }
        seahash_fingerprint(id_iter_to_bytes(data))
    }
}

/// The state of the 128-bit streaming aggregate.
#[derive(Clone, Debug)]
pub struct FarmhashState {
    data: Vec<String>,
}

impl View for FarmhashState {
    type V = Seq<Seq<u8>>;

    /// The encoded values that are buffered, oldest first.
    closed spec fn view(&self) -> Seq<Seq<u8>> {
        strings_view(self.data@)
    }
}

impl Default for FarmhashState {
    /// The empty state that every group starts from.
    fn default() -> (state: Self)
        ensures
            state@ == Seq::<Seq<u8>>::empty(),
    {
        let state = FarmhashState { data: Vec::new() };
        proof {
            assert(state@ =~= Seq::<Seq<u8>>::empty());
        }
        state
    }
}

impl FarmhashState {
    /// The state that has buffered the given values, oldest first.
    pub fn from_values(data: Vec<String>) -> (state: FarmhashState)
        ensures
            state@ == strings_view(data@),
    {
        FarmhashState { data }
    }

    /// The values that the state has buffered, oldest first.
    pub fn into_values(self) -> (data: Vec<String>)
        ensures
            strings_view(data@) == self@,
    {
        self.data
    }

    /// Buffers one more value. A null is rejected, whatever the state.
    pub fn state(current: FarmhashState, arg: Option<String>) -> (result: Result<
        FarmhashState,
        FingerprintError,
    >)
        ensures
            arg is None ==> result == Err::<FarmhashState, FingerprintError>(
                FingerprintError::NullValue,
            ),
            arg is Some ==> result is Ok && result.unwrap()@ == after_value(
                current@,
                text_view(arg).unwrap(),
            ),
    {
        let mut current = current;
        match arg {
            Some(value) => {
                let ghost before = current@;
                current.data.push(value);
                proof {
                    assert(current@ =~= before.push(text_view(arg).unwrap()));
                }
                Ok(current)
            },
            None => Err(FingerprintError::NullValue),
        }
    }

    /// Fingerprints the buffered values in the order in which they came, and
    /// empties the state.
    pub fn finalize(current: &mut FarmhashState) -> (id: Uuid)
        ensures
            id@ == fingerprint128(canonical(old(current)@)),
            final(current)@ == Seq::<Seq<u8>>::empty(),
    {
        let mut data: Vec<String> = Vec::new();
        core::mem::swap(&mut current.data, &mut data);
        proof {
            assert(current@ =~= Seq::<Seq<u8>>::empty());
        }
        farmhash_fingerprint(id_iter_to_bytes(data))
    }
}

} // verus!
