use row_fingerprint::checksum_farmhash;
use row_fingerprint::checksum_farmhash_extendable;
use row_fingerprint::checksum_seahash;
use row_fingerprint::checksum_seahash_extendable;
use row_fingerprint::normalized_pairs_bytes;
use row_fingerprint::FingerprintError;
use row_fingerprint::NullPolicy;

fn nullable(arr: &[Option<&str>]) -> Vec<Option<String>> {
    arr.iter().map(|s| s.map(|s| s.to_string())).collect()
}

fn checksum_golden_table() -> [(Vec<Option<&'static str>>, u128, u64, u128, u64); 7] {
    [
        (
            vec![Some("b"), Some("1"), Some("a"), Some("2"), Some("c"), Some("3")],
            200872945134416140889070688363161139169,
            2409718014940744358,
            200872945134416140889070688363161139169,
            2409718014940744358,
        ),
        (
            vec![Some("c"), Some("1"), Some("b"), Some("2"), Some("a"), Some("3")],
            159497434488907202746785405570285430728,
            13904897432444956006,
            159497434488907202746785405570285430728,
            13904897432444956006,
        ),
        (
            vec![Some("a"), Some("1"), Some("b"), Some("2"), Some("c"), Some("3")],
            63991421267038837894546220157490372611,
            2987942282093369026,
            63991421267038837894546220157490372611,
            2987942282093369026,
        ),
        (
            vec![Some("c"), Some("3"), Some("b"), Some("2"), Some("a"), Some("1")],
            63991421267038837894546220157490372611,
            2987942282093369026,
            63991421267038837894546220157490372611,
            2987942282093369026,
        ),
        (
            vec![Some("d"), None, Some("b"), Some("1"), Some("a"), Some("2"), Some("c"), Some("3")],
            200872945134416140889070688363161139169,
            2409718014940744358,
            81995647272375524016145587428893207932,
            1483524512128736869,
        ),
        (
            vec![
                Some("b"),
                Some("1"),
                Some("e,"),
                None,
                Some("a"),
                Some("2"),
                Some("c"),
                Some("3"),
                Some("d"),
                None,
            ],
            200872945134416140889070688363161139169,
            2409718014940744358,
            25535654360990964780919159173614512903,
            2918039635165515565,
        ),
        (
            vec![Some("a"), Some("1"), Some("d"), None, Some("b"), Some("2"), Some("c"), Some("3")],
            63991421267038837894546220157490372611,
            2987942282093369026,
            55229287721383068868671312639375865447,
            13930034059081198257,
        ),
    ]
}

#[test]
fn checksum_farmhash_golden() {
    for (params, _, _, golden, _) in checksum_golden_table().iter() {
        let result = checksum_farmhash(nullable(params)).expect("even length");
        assert_eq!(u128::from_le_bytes(*result.as_bytes()), *golden, "using {:?}", params);
    }
}

#[test]
fn checksum_seahash_golden() {
    for (params, _, _, _, golden) in checksum_golden_table().iter() {
        let result = checksum_seahash(nullable(params)).expect("even length");
        assert_eq!(u64::from_ne_bytes(result.to_ne_bytes()), *golden, "using {:?}", params);
    }
}

#[test]
fn checksum_farmhash_extendable_golden() {
    for (params, golden, _, _, _) in checksum_golden_table().iter() {
        let result = checksum_farmhash_extendable(nullable(params)).expect("even length");
        assert_eq!(u128::from_le_bytes(*result.as_bytes()), *golden, "using {:?}", params);
    }
}

#[test]
fn checksum_seahash_extendable_golden() {
    for (params, _, golden, _, _) in checksum_golden_table().iter() {
        let result = checksum_seahash_extendable(nullable(params)).expect("even length");
        assert_eq!(u64::from_ne_bytes(result.to_ne_bytes()), *golden, "using {:?}", params);
    }
}

#[test]
fn checksums_reject_odd_length() {
    let odd = nullable(&[Some("a"), Some("1"), Some("b")]);
    assert_eq!(checksum_seahash(odd.clone()), Err(FingerprintError::InvalidArity));
    assert_eq!(checksum_seahash_extendable(odd.clone()), Err(FingerprintError::InvalidArity));
    assert_eq!(checksum_farmhash(odd.clone()), Err(FingerprintError::InvalidArity));
    assert_eq!(checksum_farmhash_extendable(odd), Err(FingerprintError::InvalidArity));
    let odd_nulls = nullable(&[None, None, None]);
    assert_eq!(checksum_seahash(odd_nulls.clone()), Err(FingerprintError::InvalidArity));
    assert_eq!(checksum_farmhash_extendable(odd_nulls), Err(FingerprintError::InvalidArity));
    assert_eq!(checksum_seahash(nullable(&[Some("x")])), Err(FingerprintError::InvalidArity));
}

#[test]
fn checksums_accept_nulls() {
    let all_null = nullable(&[None, None, None, None]);
    assert!(checksum_seahash(all_null.clone()).is_ok());
    assert!(checksum_seahash_extendable(all_null.clone()).is_ok());
    assert!(checksum_farmhash(all_null.clone()).is_ok());
    assert!(checksum_farmhash_extendable(all_null.clone()).is_ok());
    assert_eq!(checksum_seahash(all_null), checksum_seahash(vec![]));
    assert!(checksum_seahash(vec![]).is_ok());
}

#[test]
fn checksums_ignore_the_order_of_pairs() {
    let one = nullable(&[Some("b"), Some("1"), Some("a"), Some("2"), Some("c"), Some("3")]);
    let other = nullable(&[Some("c"), Some("3"), Some("b"), Some("1"), Some("a"), Some("2")]);
    assert_eq!(checksum_seahash(one.clone()), checksum_seahash(other.clone()));
    assert_eq!(checksum_seahash_extendable(one.clone()), checksum_seahash_extendable(other.clone()));
    assert_eq!(checksum_farmhash(one.clone()), checksum_farmhash(other.clone()));
    assert_eq!(checksum_farmhash_extendable(one.clone()), checksum_farmhash_extendable(other.clone()));
    for policy in [NullPolicy::Strict, NullPolicy::KeepNullValues] {
        assert_eq!(
            normalized_pairs_bytes(one.clone(), policy),
            normalized_pairs_bytes(other.clone(), policy)
        );
    }
}

#[test]
fn checksums_ignore_a_repeated_pair() {
    let once = nullable(&[Some("b"), Some("1"), Some("a"), Some("2")]);
    let twice = nullable(&[Some("b"), Some("1"), Some("a"), Some("2"), Some("b"), Some("1")]);
    assert_eq!(checksum_seahash(once.clone()), checksum_seahash(twice.clone()));
    assert_eq!(checksum_seahash_extendable(once.clone()), checksum_seahash_extendable(twice.clone()));
    assert_eq!(checksum_farmhash(once.clone()), checksum_farmhash(twice.clone()));
    assert_eq!(checksum_farmhash_extendable(once.clone()), checksum_farmhash_extendable(twice.clone()));
    assert_eq!(
        normalized_pairs_bytes(twice, NullPolicy::Strict).unwrap(),
        &b"a\x002\0b\x001"[..]
    );
}

#[test]
fn null_policies_diverge() {
    let pairs = nullable(&[
        Some("a"),
        Some("1"),
        Some("d"),
        None,
        Some("b"),
        Some("2"),
        Some("c"),
        Some("3"),
    ]);
    assert_ne!(
        checksum_seahash(pairs.clone()).unwrap(),
        checksum_seahash_extendable(pairs.clone()).unwrap()
    );
    assert_ne!(
        checksum_farmhash(pairs.clone()).unwrap(),
        checksum_farmhash_extendable(pairs.clone()).unwrap()
    );
    assert_eq!(
        normalized_pairs_bytes(pairs.clone(), NullPolicy::Strict).unwrap(),
        &b"a\x001\0b\x002\0c\x003"[..]
    );
    assert_eq!(
        normalized_pairs_bytes(pairs, NullPolicy::KeepNullValues).unwrap(),
        &b"a\x001\0b\x002\0c\x003\0d\0"[..]
    );
}

#[test]
fn strict_policy_equals_checksum_without_the_null_pair() {
    let with_null = nullable(&[
        Some("a"),
        Some("1"),
        Some("d"),
        None,
        Some("b"),
        Some("2"),
        Some("c"),
        Some("3"),
    ]);
    let without = nullable(&[Some("a"), Some("1"), Some("b"), Some("2"), Some("c"), Some("3")]);
    assert_eq!(
        checksum_seahash_extendable(with_null.clone()),
        checksum_seahash_extendable(without.clone())
    );
    assert_eq!(checksum_farmhash_extendable(with_null), checksum_farmhash_extendable(without));
}

#[test]
fn pairs_with_null_keys_are_dropped() {
    let pairs = nullable(&[None, Some("1"), Some("a"), Some("2"), None, None]);
    for policy in [NullPolicy::Strict, NullPolicy::KeepNullValues] {
        assert_eq!(normalized_pairs_bytes(pairs.clone(), policy).unwrap(), &b"a\x002"[..]);
    }
}

#[test]
fn pairs_with_one_key_keep_their_order() {
    let one = nullable(&[Some("a"), Some("1"), Some("a"), Some("2")]);
    let other = nullable(&[Some("a"), Some("2"), Some("a"), Some("1")]);
    assert_eq!(
        normalized_pairs_bytes(one.clone(), NullPolicy::Strict).unwrap(),
        &b"a\x001\0a\x002"[..]
    );
    assert_eq!(
        normalized_pairs_bytes(other.clone(), NullPolicy::Strict).unwrap(),
        &b"a\x002\0a\x001"[..]
    );
    assert_ne!(checksum_seahash(one), checksum_seahash(other));
}

#[test]
fn a_repeat_parted_from_its_twin_stays() {
    let pairs = nullable(&[Some("a"), Some("1"), Some("a"), Some("2"), Some("a"), Some("1")]);
    assert_eq!(
        normalized_pairs_bytes(pairs, NullPolicy::Strict).unwrap(),
        &b"a\x001\0a\x002\0a\x001"[..]
    );
}

#[test]
fn keys_sort_bytewise() {
    let pairs = nullable(&[
        Some("b"),
        Some("1"),
        Some("ab"),
        Some("2"),
        Some("a"),
        Some("3"),
        Some(""),
        Some("4"),
        Some("B"),
        Some("5"),
    ]);
    assert_eq!(
        normalized_pairs_bytes(pairs, NullPolicy::Strict).unwrap(),
        &b"\x004\0B\x005\0a\x003\0ab\x002\0b\x001"[..]
    );
}

#[test]
fn order_between_different_keys_is_immaterial() {
    let one = nullable(&[
        Some("a"),
        Some("1"),
        Some("b"),
        Some("x"),
        Some("a"),
        Some("2"),
        None,
        Some("n"),
        Some("b"),
        None,
    ]);
    let other = nullable(&[
        Some("b"),
        Some("x"),
        Some("b"),
        None,
        None,
        Some("m"),
        Some("a"),
        Some("1"),
        Some("a"),
        Some("2"),
    ]);
    for policy in [NullPolicy::Strict, NullPolicy::KeepNullValues] {
        assert_eq!(
            normalized_pairs_bytes(one.clone(), policy),
            normalized_pairs_bytes(other.clone(), policy)
        );
    }
    assert_eq!(checksum_seahash(one.clone()), checksum_seahash(other.clone()));
    assert_eq!(checksum_farmhash_extendable(one), checksum_farmhash_extendable(other));
}

#[test]
fn a_dropped_pair_given_once_more_changes_nothing() {
    let once = nullable(&[Some("a"), Some("1"), Some("a"), Some("2")]);
    let more = nullable(&[Some("a"), Some("1"), Some("a"), Some("2"), Some("a"), None]);
    assert_eq!(
        checksum_seahash_extendable(once.clone()),
        checksum_seahash_extendable(more.clone())
    );
    assert_ne!(checksum_seahash(once), checksum_seahash(more));
}
