use bytes::Bytes;
use row_fingerprint::normalized_pairs_bytes;
use row_fingerprint::FingerprintError;
use row_fingerprint::NullPolicy;

fn all_present(arr: &[&str]) -> Vec<Option<String>> {
    arr.iter().map(|s| s.to_string()).map(Option::Some).collect()
}

fn nullable(arr: &[Option<&str>]) -> Vec<Option<String>> {
    arr.iter().map(|s| s.map(|s| s.to_string())).collect()
}

#[test]
fn test_normalized_pairs_keeping_nulls() {
    let table = vec![
        (
            vec!["a", "v", "b", "v2"],
            Bytes::from_static(b"a\0v\0b\0v2"),
        ),
        (
            vec!["b", "v2", "a", "v"],
            Bytes::from_static(b"a\0v\0b\0v2"),
        ),
        (
            vec!["c", "v3", "a", "v", "b", "v2"],
            Bytes::from_static(b"a\0v\0b\0v2\0c\0v3"),
        ),
        (
            vec!["b", "v2", "c", "v3", "a", "v"],
            Bytes::from_static(b"a\0v\0b\0v2\0c\0v3"),
        ),
    ];
    for (arr, bytes) in table.iter() {
        let result = normalized_pairs_bytes(all_present(arr), NullPolicy::KeepNullValues);
        assert_eq!(result, Ok(bytes.clone()), "using {:?}", arr);
    }

    let table = vec![
        (
            vec![Some("c"), None, Some("a"), None, Some("b"), Some("v2")],
            Bytes::from_static(b"a\0\0b\0v2\0c\0"),
        ),
        (
            vec![
                Some("c"),
                Some("v3"),
                Some("a"),
                None,
                Some("b"),
                Some("v2"),
            ],
            Bytes::from_static(b"a\0\0b\0v2\0c\0v3"),
        ),
        (
            vec![
                Some("d"),
                None,
                Some("b"),
                Some("1"),
                Some("a"),
                None,
                Some("c"),
                Some("3"),
            ],
            Bytes::from_static(b"a\0\0b\01\0c\03\0d\0"),
        ),
    ];
    for (arr, bytes) in table.iter() {
        let result = normalized_pairs_bytes(nullable(arr), NullPolicy::KeepNullValues);
        assert_eq!(result, Ok(bytes.clone()), "using {:?}", arr);
    }
}

#[test]
fn test_normalized_pairs() {
    let table = vec![
        (
            vec!["a", "v", "b", "v2"],
            Bytes::from_static(b"a\0v\0b\0v2"),
        ),
        (
            vec!["b", "v2", "a", "v"],
            Bytes::from_static(b"a\0v\0b\0v2"),
        ),
        (
            vec!["c", "v3", "a", "v", "b", "v2"],
            Bytes::from_static(b"a\0v\0b\0v2\0c\0v3"),
        ),
        (
            vec!["b", "v2", "c", "v3", "a", "v"],
            Bytes::from_static(b"a\0v\0b\0v2\0c\0v3"),
        ),
    ];
    for (arr, bytes) in table.iter() {
        let result = normalized_pairs_bytes(all_present(arr), NullPolicy::Strict);
        assert_eq!(result, Ok(bytes.clone()), "using {:?}", arr);
    }

    let table = vec![
        (
            vec![Some("c"), Some("v3"), Some("a"), None, Some("b"), None],
            Bytes::from_static(b"c\0v3"),
        ),
        (
            vec![
                Some("c"),
                Some("v3"),
                Some("a"),
                None,
                Some("b"),
                Some("v2"),
            ],
            Bytes::from_static(b"b\0v2\0c\0v3"),
        ),
        (
            vec![
                Some("d"),
                None,
                Some("b"),
                Some("1"),
                Some("a"),
                None,
                Some("c"),
                Some("3"),
            ],
            Bytes::from_static(b"b\01\0c\03"),
        ),
    ];
    for (arr, bytes) in table.iter() {
        let result = normalized_pairs_bytes(nullable(arr), NullPolicy::Strict);
        assert_eq!(result, Ok(bytes.clone()), "using {:?}", arr);
    }
}

#[test]
fn normalized_pairs_reject_odd_length() {
    for policy in [NullPolicy::Strict, NullPolicy::KeepNullValues] {
        let result = normalized_pairs_bytes(all_present(&["a", "v", "b"]), policy);
        assert_eq!(result, Err(FingerprintError::InvalidArity));
        let result = normalized_pairs_bytes(nullable(&[None]), policy);
        assert_eq!(result, Err(FingerprintError::InvalidArity));
    }
}
