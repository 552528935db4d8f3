//! A 128-bit identifier held as sixteen bytes.

use vstd::prelude::*;

use crate::order::lex_lt;

verus! {

/// A 128-bit identifier: sixteen bytes in a fixed order.
#[derive(Clone, Copy, Debug, PartialEq, Eq, PartialOrd, Ord, Hash)]
pub struct Uuid {
    bytes: [u8; 16],
}

impl View for Uuid {
    type V = Seq<u8>;

    closed spec fn view(&self) -> Seq<u8> {
        self.bytes@
    }
}

/// Byte `i` of `value`, counted from the least significant one.
pub open spec fn le_byte(value: u128, i: int) -> u8 {
    ((value >> ((8 * i) as u128)) & 0xff) as u8
}

/// The sixteen bytes of `value`, least significant first.
pub open spec fn le_bytes(value: u128) -> Seq<u8> {
    Seq::new(16, |i: int| le_byte(value, i))
}

/// The number whose sixteen bytes, least significant first, are `bytes`.
pub open spec fn from_le_bytes(bytes: Seq<u8>) -> u128
    recommends
        bytes.len() == 16,
{
    (bytes[0] as u128) | (bytes[1] as u128) << 8 | (bytes[2] as u128) << 16 | (bytes[3] as u128)
        << 24 | (bytes[4] as u128) << 32 | (bytes[5] as u128) << 40 | (bytes[6] as u128) << 48 | (
    bytes[7] as u128) << 56 | (bytes[8] as u128) << 64 | (bytes[9] as u128) << 72 | (
    bytes[10] as u128) << 80 | (bytes[11] as u128) << 88 | (bytes[12] as u128) << 96 | (
    bytes[13] as u128) << 104 | (bytes[14] as u128) << 112 | (bytes[15] as u128) << 120
}

/// Rendering a 128-bit number as sixteen bytes loses nothing: read back,
/// least significant byte first, the bytes are the number again.
pub proof fn lemma_le_bytes_keep_value(value: u128)
    ensures
        le_bytes(value).len() == 16,
        from_le_bytes(le_bytes(value)) == value,
{
    let b = le_bytes(value);
    assert(b[0] == ((value >> 0u128) & 0xff) as u8);
    assert(b[1] == ((value >> 8u128) & 0xff) as u8);
    assert(b[2] == ((value >> 16u128) & 0xff) as u8);
    assert(b[3] == ((value >> 24u128) & 0xff) as u8);
    assert(b[4] == ((value >> 32u128) & 0xff) as u8);
    assert(b[5] == ((value >> 40u128) & 0xff) as u8);
    assert(b[6] == ((value >> 48u128) & 0xff) as u8);
    assert(b[7] == ((value >> 56u128) & 0xff) as u8);
    assert(b[8] == ((value >> 64u128) & 0xff) as u8);
    assert(b[9] == ((value >> 72u128) & 0xff) as u8);
    assert(b[10] == ((value >> 80u128) & 0xff) as u8);
    assert(b[11] == ((value >> 88u128) & 0xff) as u8);
    assert(b[12] == ((value >> 96u128) & 0xff) as u8);
    assert(b[13] == ((value >> 104u128) & 0xff) as u8);
    assert(b[14] == ((value >> 112u128) & 0xff) as u8);
    assert(b[15] == ((value >> 120u128) & 0xff) as u8);
    assert((((value >> 0u128) & 0xff) as u8 as u128) | (((value >> 8u128) & 0xff) as u8 as u128)
        << 8 | (((value >> 16u128) & 0xff) as u8 as u128) << 16 | (((value >> 24u128)
        & 0xff) as u8 as u128) << 24 | (((value >> 32u128) & 0xff) as u8 as u128) << 32 | (((value
        >> 40u128) & 0xff) as u8 as u128) << 40 | (((value >> 48u128) & 0xff) as u8 as u128) << 48
        | (((value >> 56u128) & 0xff) as u8 as u128) << 56 | (((value >> 64u128)
        & 0xff) as u8 as u128) << 64 | (((value >> 72u128) & 0xff) as u8 as u128) << 72 | (((value
        >> 80u128) & 0xff) as u8 as u128) << 80 | (((value >> 88u128) & 0xff) as u8 as u128) << 88
        | (((value >> 96u128) & 0xff) as u8 as u128) << 96 | (((value >> 104u128)
        & 0xff) as u8 as u128) << 104 | (((value >> 112u128) & 0xff) as u8 as u128) << 112 | (((
    value >> 120u128) & 0xff) as u8 as u128) << 120 == value) by (bit_vector);
}

impl Uuid {
    /// Every identifier has sixteen bytes.
    pub proof fn lemma_len(self)
        ensures
            self@.len() == 16,
    {
    }

    /// The identifier with the given bytes.
    pub fn from_bytes(bytes: [u8; 16]) -> (id: Uuid)
        ensures
            id@ == bytes@,
    {
        Uuid { bytes }
    }

    /// The bytes of the identifier.
    pub fn as_bytes(&self) -> (bytes: &[u8; 16])
        ensures
            bytes@ == self@,
    {
        &self.bytes
    }

    /// Whether two identifiers have the same bytes.
    pub fn same_bytes(&self, other: &Uuid) -> (same: bool)
        ensures
            same == (self@ == other@),
    {
        for i in 0..16
            invariant
                forall|j: int| 0 <= j < i ==> self@[j] == other@[j],
        {
            if self.bytes[i] != other.bytes[i] {
                return false;
            }
        }
        proof {
            assert(self@ =~= other@);
        }
        true
    }

    /// Whether this identifier sorts strictly before `other`: bytewise, the
    /// first byte counting most.
    pub fn precedes(&self, other: &Uuid) -> (before: bool)
        ensures
            before == lex_lt(self@, other@),
    {
        proof {
            assert(self@.skip(0) =~= self@);
            assert(other@.skip(0) =~= other@);
        }
        for i in 0..16
            invariant
                lex_lt(self@, other@) == lex_lt(self@.skip(i as int), other@.skip(i as int)),
        {
            proof {
                assert(self@.skip(i as int).drop_first() =~= self@.skip(i + 1));
                assert(other@.skip(i as int).drop_first() =~= other@.skip(i + 1));
                assert(self@.skip(i as int)[0] == self@[i as int]);
                assert(other@.skip(i as int)[0] == other@[i as int]);
            }
            if self.bytes[i] != other.bytes[i] {
                return self.bytes[i] < other.bytes[i];
            }
        }
        false
    }

    /// The identifier whose bytes are those of `value`, least significant
    /// first.
    pub fn from_u128_le(value: u128) -> (id: Uuid)
        ensures
            id@ == le_bytes(value),
    {
        let mut bytes = [0u8; 16];
        let mut rest = value;
        let mut i: usize = 0;
        proof {
            assert(value >> 0u128 == value) by (bit_vector);
        }
        while i < 16
            invariant
                i <= 16,
                rest == value >> ((8 * i) as u128),
                forall|j: int| 0 <= j < i ==> bytes@[j] == le_byte(value, j),
            decreases 16 - i,
        {
            proof {
                assert(rest & 0xff <= 0xff) by (bit_vector);
            }
            let low = (rest & 0xff) as u8;
            bytes[i] = low;
            proof {
                let shift = (8 * i) as u128;
                assert(shift <= 120);
                assert((value >> shift) >> 8u128 == value >> ((shift + 8) as u128))
                    by (bit_vector)
                    requires
                        shift <= 120,
                ;
            }
            rest = rest >> 8;
            i = i + 1;
        }
        proof {
            assert(bytes@ =~= le_bytes(value));
        }
        Uuid { bytes }
    }
}

} // verus!
