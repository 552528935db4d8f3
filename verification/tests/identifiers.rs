use row_fingerprint::id_farmhash;
use row_fingerprint::id_iter_to_bytes;
use row_fingerprint::id_seahash;
use row_fingerprint::id_underscore_md5;
use row_fingerprint::ids_to_bytes;
use row_fingerprint::FingerprintError;
use row_fingerprint::Uuid;

fn texts(arr: &[&str]) -> Vec<Option<String>> {
    arr.iter().map(|s| Some(s.to_string())).collect()
}

fn id_golden_table() -> [(Vec<&'static str>, u128, u64); 4] {
    [
        (
            vec!["a", "b", "c"],
            185254626185375829619130502206294491400,
            14302911629075895706,
        ),
        (
            vec!["a", "bc"],
            209923663634918632141264334831867734826,
            11633404322457790885,
        ),
        (
            vec!["ab", "c"],
            48977107076008525069529680716651780466,
            15405044104555301515,
        ),
        (
            vec!["ab", "c", "d"],
            236038958675336168148183549336891112308,
            15729725979387502697,
        ),
    ]
}

#[test]
fn id_farmhash_golden() {
    for (params, golden, _) in id_golden_table().iter() {
        let result = id_farmhash(texts(params)).expect("no null given");
        let golden_uuid = Uuid::from_bytes(golden.to_le_bytes());
        assert_eq!(result, golden_uuid, "using {:?}", params);
    }
}

#[test]
fn id_seahash_golden() {
    for (params, _, golden) in id_golden_table().iter() {
        let result = id_seahash(texts(params)).expect("no null given");
        let result_u64 = u64::from_ne_bytes(result.to_ne_bytes());
        assert_eq!(result_u64, *golden, "using {:?}", params);
    }
}

#[test]
fn id_underscore_md5_joins_with_underscore() {
    let result = id_underscore_md5(texts(&["1", "2", "3"])).expect("no null given");
    assert_eq!(
        *result.as_bytes(),
        [201, 179, 21, 109, 136, 244, 120, 138, 153, 168, 207, 141, 233, 38, 2, 95]
    );
    let single = id_underscore_md5(texts(&["a"])).expect("no null given");
    assert_eq!(
        *single.as_bytes(),
        [12, 193, 117, 185, 192, 241, 182, 168, 49, 195, 153, 226, 105, 119, 38, 97]
    );
}

#[test]
fn identifiers_depend_on_the_order() {
    assert_ne!(id_seahash(texts(&["a", "b"])), id_seahash(texts(&["b", "a"])));
    assert_ne!(id_farmhash(texts(&["a", "b"])), id_farmhash(texts(&["b", "a"])));
    assert_ne!(id_underscore_md5(texts(&["a", "b"])), id_underscore_md5(texts(&["b", "a"])));
}

#[test]
fn identifiers_keep_repeats() {
    assert_ne!(id_seahash(texts(&["a", "a"])), id_seahash(texts(&["a"])));
    assert_ne!(id_farmhash(texts(&["a", "a"])), id_farmhash(texts(&["a"])));
}

#[test]
fn identifiers_reject_null() {
    let with_null = vec![Some("a".to_string()), None, Some("b".to_string())];
    assert_eq!(id_seahash(with_null.clone()), Err(FingerprintError::NullValue));
    assert_eq!(id_farmhash(with_null.clone()), Err(FingerprintError::NullValue));
    assert_eq!(id_underscore_md5(with_null.clone()), Err(FingerprintError::NullValue));
    assert_eq!(ids_to_bytes(with_null), Err(FingerprintError::NullValue));
    assert_eq!(id_seahash(vec![None]), Err(FingerprintError::NullValue));
}

#[test]
fn ids_to_bytes_joins_with_zero() {
    assert_eq!(ids_to_bytes(texts(&["a", "b", "c"])).unwrap(), &b"a\0b\0c"[..]);
    assert_eq!(ids_to_bytes(texts(&["ab", "c"])).unwrap(), &b"ab\0c"[..]);
    assert_eq!(ids_to_bytes(texts(&["a"])).unwrap(), &b"a"[..]);
    assert_eq!(ids_to_bytes(texts(&[])).unwrap(), &b""[..]);
    assert_eq!(ids_to_bytes(texts(&["", ""])).unwrap(), &b"\0"[..]);
    assert_eq!(ids_to_bytes(texts(&["", "x", ""])).unwrap(), &b"\0x\0"[..]);
}

#[test]
fn id_iter_to_bytes_keeps_order_and_repeats() {
    let strings = |arr: &[&str]| arr.iter().map(|s| s.to_string()).collect::<Vec<String>>();
    assert_eq!(id_iter_to_bytes(strings(&["b", "a", "b"])), &b"b\0a\0b"[..]);
    assert_eq!(id_iter_to_bytes(strings(&[])), &b""[..]);
    assert_eq!(id_iter_to_bytes(strings(&["\u{e9}"])), &[0xc3u8, 0xa9][..]);
}

#[test]
fn empty_identifier_is_fingerprint_of_nothing() {
    let empty = id_seahash(vec![]).expect("no null given");
    assert_eq!(u64::from_ne_bytes(empty.to_ne_bytes()), seahash::hash(b""));
    let empty = id_farmhash(vec![]).expect("no null given");
    assert_eq!(
        u128::from_le_bytes(*empty.as_bytes()),
        fasthash::farm::fingerprint128(b"")
    );
}
