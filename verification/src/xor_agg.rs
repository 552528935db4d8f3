//! The exclusive-or aggregate: its state is one 128-bit identifier, and each
//! value is folded in bit by bit.
//!
//! Exclusive or is associative and commutative, so partial states computed
//! over parts of a group can be combined in any order.

use vstd::prelude::*;

use crate::uuid::Uuid;

verus! {

/// The aggregate that folds identifiers together by exclusive or.
#[derive(Clone, Copy, Debug, Default)]
pub struct XorAggUuidState {}

/// The bitwise exclusive or of two identifiers, byte by byte.
pub open spec fn xor_bytes(a: Seq<u8>, b: Seq<u8>) -> Seq<u8>
    recommends
        a.len() == 16,
        b.len() == 16,
{
    Seq::new(16, |i: int| a[i] ^ b[i])
}

/// The identifier with every bit clear: the state of an aggregate that has
/// folded in nothing.
pub open spec fn zero_bytes() -> Seq<u8> {
    Seq::new(16, |i: int| 0u8)
}

/// Exclusive or is commutative: which of two identifiers is the state and
/// which the new value makes no difference.
pub proof fn lemma_xor_commutative(a: Uuid, b: Uuid)
    ensures
        xor_bytes(a@, b@) == xor_bytes(b@, a@),
{
    assert forall|i: int| 0 <= i < 16 implies xor_bytes(a@, b@)[i] == xor_bytes(b@, a@)[i] by {
        let x = a@[i];
        let y = b@[i];
        assert(x ^ y == y ^ x) by (bit_vector);
    }
    assert(xor_bytes(a@, b@) =~= xor_bytes(b@, a@));
}

/// Exclusive or is associative: partial states can be combined in any
/// grouping.
pub proof fn lemma_xor_associative(a: Uuid, b: Uuid, c: Uuid)
    ensures
        xor_bytes(xor_bytes(a@, b@), c@) == xor_bytes(a@, xor_bytes(b@, c@)),
{
    assert forall|i: int| 0 <= i < 16 implies xor_bytes(xor_bytes(a@, b@), c@)[i] == xor_bytes(
        a@,
        xor_bytes(b@, c@),
    )[i] by {
        let x = a@[i];
        let y = b@[i];
        let z = c@[i];
        assert((x ^ y) ^ z == x ^ (y ^ z)) by (bit_vector);
    }
    assert(xor_bytes(xor_bytes(a@, b@), c@) =~= xor_bytes(a@, xor_bytes(b@, c@)));
}

/// A value folded in twice cancels: the state is what it was before, in
/// either grouping, and a value combined with itself is the identifier with
/// every bit clear, which changes no state that it is folded into.
pub proof fn lemma_xor_cancels(state: Uuid, value: Uuid)
    ensures
        xor_bytes(xor_bytes(state@, value@), value@) == state@,
        xor_bytes(state@, xor_bytes(value@, value@)) == state@,
        xor_bytes(value@, value@) == zero_bytes(),
        xor_bytes(state@, zero_bytes()) == state@,
        xor_bytes(zero_bytes(), state@) == state@,
{
    state.lemma_len();
    value.lemma_len();
    let s = state@;
    let v = value@;
    assert forall|i: int| 0 <= i < 16 implies #[trigger] xor_bytes(xor_bytes(s, v), v)[i]
        == s[i] by {
        let x = s[i];
        let y = v[i];
        assert((x ^ y) ^ y == x) by (bit_vector);
    }
    assert(xor_bytes(xor_bytes(s, v), v) =~= s);
    assert forall|i: int| 0 <= i < 16 implies #[trigger] xor_bytes(v, v)[i] == zero_bytes()[i] by {
        let y = v[i];
        assert(y ^ y == 0u8) by (bit_vector);
    }
    assert(xor_bytes(v, v) =~= zero_bytes());
    assert forall|i: int| 0 <= i < 16 implies #[trigger] xor_bytes(s, zero_bytes())[i]
        == s[i] by {
        let x = s[i];
        assert(x ^ 0u8 == x) by (bit_vector);
    }
    assert(xor_bytes(s, zero_bytes()) =~= s);
    assert forall|i: int| 0 <= i < 16 implies #[trigger] xor_bytes(zero_bytes(), s)[i]
        == s[i] by {
        let x = s[i];
        assert(0u8 ^ x == x) by (bit_vector);
    }
    assert(xor_bytes(zero_bytes(), s) =~= s);
}

impl XorAggUuidState {
    /// Folds `arg` into `current`: the bitwise exclusive or of the two.
    pub fn combine(current: Uuid, arg: Uuid) -> (combined: Uuid)
        ensures
            combined@ == xor_bytes(current@, arg@),
    {
        let old = current.as_bytes();
        let new = arg.as_bytes();
        let mut bytes = [0u8; 16];
        let mut i: usize = 0;
        while i < 16
            invariant
                i <= 16,
                old@ == current@,
                new@ == arg@,
                forall|j: int| 0 <= j < i ==> bytes@[j] == current@[j] ^ arg@[j],
            decreases 16 - i,
        {
            bytes[i] = old[i] ^ new[i];
            i = i + 1;
        }
        let combined = Uuid::from_bytes(bytes);
        proof {
            assert(combined@ =~= xor_bytes(current@, arg@));
        }
        combined
    }

    /// The result of the aggregate: the state itself.
    pub fn finalize(current: Uuid) -> (id: Uuid)
        ensures
            id == current,
    {
        current
    }
}

} // verus!
