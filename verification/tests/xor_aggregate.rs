use row_fingerprint::Uuid;
use row_fingerprint::XorAggUuidState;

fn id(value: u128) -> Uuid {
    Uuid::from_bytes(value.to_ne_bytes())
}

fn samples() -> [Uuid; 5] {
    [
        id(0),
        id(1),
        id(0x0123_4567_89ab_cdef_fedc_ba98_7654_3210),
        id(u128::MAX),
        id(0xdead_beef_dead_beef_0000_0000_ffff_ffff),
    ]
}

#[test]
fn combine_is_bitwise_exclusive_or() {
    let a = 0x0f0f_0f0f_0f0f_0f0f_0f0f_0f0f_0f0f_0f0fu128;
    let b = 0x00ff_00ff_00ff_00ff_00ff_00ff_00ff_00ffu128;
    let combined = XorAggUuidState::combine(id(a), id(b));
    assert_eq!(u128::from_ne_bytes(*combined.as_bytes()), a ^ b);
    assert_eq!(combined, id(0x0ff0_0ff0_0ff0_0ff0_0ff0_0ff0_0ff0_0ff0));
    let bytes = XorAggUuidState::combine(
        Uuid::from_bytes([1, 2, 3, 4, 5, 6, 7, 8, 9, 10, 11, 12, 13, 14, 15, 16]),
        Uuid::from_bytes([16, 15, 14, 13, 12, 11, 10, 9, 8, 7, 6, 5, 4, 3, 2, 1]),
    );
    assert_eq!(
        *bytes.as_bytes(),
        [17, 13, 13, 9, 9, 13, 13, 1, 1, 13, 13, 9, 9, 13, 13, 17]
    );
}

#[test]
fn combine_is_commutative() {
    for a in samples() {
        for b in samples() {
            assert_eq!(XorAggUuidState::combine(a, b), XorAggUuidState::combine(b, a));
        }
    }
}

#[test]
fn combine_is_associative() {
    for a in samples() {
        for b in samples() {
            for c in samples() {
                assert_eq!(
                    XorAggUuidState::combine(XorAggUuidState::combine(a, b), c),
                    XorAggUuidState::combine(a, XorAggUuidState::combine(b, c))
                );
            }
        }
    }
}

#[test]
fn combining_twice_cancels() {
    let zero = id(0);
    for state in samples() {
        for value in samples() {
            let once = XorAggUuidState::combine(state, value);
            assert_eq!(XorAggUuidState::combine(once, value), state);
            let twice = XorAggUuidState::combine(value, value);
            assert_eq!(twice, zero);
            assert_eq!(XorAggUuidState::combine(state, twice), state);
        }
    }
}

#[test]
fn xor_finalize_is_identity() {
    for state in samples() {
        assert_eq!(XorAggUuidState::finalize(state), state);
    }
}
