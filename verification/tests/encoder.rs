use bytes::Bytes;
use row_fingerprint::canonical::build;
use row_fingerprint::canonical::deny_null;
use row_fingerprint::canonical::encode_all;
use row_fingerprint::canonical::join_spans;
use row_fingerprint::cmp_option_tuple;
use row_fingerprint::encode::encode;
use row_fingerprint::encode::separator;
use row_fingerprint::filter_and_join_tuple;
use row_fingerprint::filter_and_join_tuple_keep_null_values;
use row_fingerprint::join_tuple;
use row_fingerprint::normalize::apply_policy;
use row_fingerprint::normalize::dedup_pairs;
use row_fingerprint::normalize::normalize_pairs;
use row_fingerprint::normalize::pair_eq;
use row_fingerprint::normalize::pair_up;
use row_fingerprint::normalize::sort_pairs;
use row_fingerprint::order::key_before;
use row_fingerprint::FingerprintError;
use row_fingerprint::NullPolicy;
use std::cmp::Ordering;

fn some(bytes: &'static [u8]) -> Option<Bytes> {
    Some(Bytes::from_static(bytes))
}

fn pair(key: Option<&'static str>, value: Option<&'static str>) -> (Option<Bytes>, Option<Bytes>) {
    (
        key.map(|k| Bytes::from_static(k.as_bytes())),
        value.map(|v| Bytes::from_static(v.as_bytes())),
    )
}

#[test]
fn separator_is_zero() {
    assert_eq!(separator(), 0u8);
}

#[test]
fn encode_gives_the_utf8_bytes() {
    assert_eq!(encode("abc".to_string()), &b"abc"[..]);
    assert_eq!(encode(String::new()), &b""[..]);
    assert_eq!(encode("a\0b".to_string()), &b"a\0b"[..]);
    assert_eq!(encode("\u{e9}\u{20ac}".to_string()), &[0xc3u8, 0xa9, 0xe2, 0x82, 0xac][..]);
}

#[test]
fn join_tuple_puts_the_separator_between() {
    assert_eq!(
        join_tuple(Bytes::from_static(b"key"), Bytes::from_static(b"value")),
        &b"key\0value"[..]
    );
    assert_eq!(join_tuple(Bytes::from_static(b"key"), Bytes::new()), &b"key\0"[..]);
    assert_eq!(join_tuple(Bytes::new(), Bytes::from_static(b"v")), &b"\0v"[..]);
    assert_eq!(join_tuple(Bytes::new(), Bytes::new()), &b"\0"[..]);
}

#[test]
fn strict_filter_drops_every_null() {
    assert_eq!(filter_and_join_tuple((some(b"a"), some(b"1"))), some(b"a\x001"));
    assert_eq!(filter_and_join_tuple((some(b"a"), None)), None);
    assert_eq!(filter_and_join_tuple((None, some(b"1"))), None);
    assert_eq!(filter_and_join_tuple((None, None)), None);
}

#[test]
fn keeping_filter_drops_null_keys_only() {
    assert_eq!(
        filter_and_join_tuple_keep_null_values((some(b"a"), some(b"1"))),
        some(b"a\x001")
    );
    assert_eq!(filter_and_join_tuple_keep_null_values((some(b"a"), None)), some(b"a\0"));
    assert_eq!(filter_and_join_tuple_keep_null_values((None, some(b"1"))), None);
    assert_eq!(filter_and_join_tuple_keep_null_values((None, None)), None);
}

#[test]
fn cmp_option_tuple_goes_by_key() {
    let a1 = pair(Some("a"), Some("1"));
    let a2 = pair(Some("a"), Some("2"));
    let b = pair(Some("b"), None);
    let ab = pair(Some("ab"), Some("x"));
    let empty = pair(Some(""), Some("x"));
    assert_eq!(cmp_option_tuple(&a1, &b), Ordering::Less);
    assert_eq!(cmp_option_tuple(&b, &a1), Ordering::Greater);
    assert_eq!(cmp_option_tuple(&a1, &a2), Ordering::Equal);
    assert_eq!(cmp_option_tuple(&a1, &ab), Ordering::Less);
    assert_eq!(cmp_option_tuple(&ab, &b), Ordering::Less);
    assert_eq!(cmp_option_tuple(&empty, &a1), Ordering::Less);
    assert_eq!(cmp_option_tuple(&a1, &a1), Ordering::Equal);
}

#[test]
fn cmp_option_tuple_puts_null_keys_last() {
    let keyed = pair(Some("zzz"), Some("1"));
    let null_one = pair(None, Some("1"));
    let null_two = pair(None, None);
    assert_eq!(cmp_option_tuple(&keyed, &null_one), Ordering::Less);
    assert_eq!(cmp_option_tuple(&null_one, &keyed), Ordering::Greater);
    assert_eq!(cmp_option_tuple(&null_one, &null_two), Ordering::Equal);
    assert!(key_before(&keyed, &null_one));
    assert!(!key_before(&null_one, &keyed));
    assert!(!key_before(&null_one, &null_two));
}

#[test]
fn pair_eq_compares_key_and_value() {
    assert!(pair_eq(&pair(Some("a"), Some("1")), &pair(Some("a"), Some("1"))));
    assert!(!pair_eq(&pair(Some("a"), Some("1")), &pair(Some("a"), Some("2"))));
    assert!(!pair_eq(&pair(Some("a"), Some("1")), &pair(Some("b"), Some("1"))));
    assert!(!pair_eq(&pair(Some("a"), None), &pair(Some("a"), Some(""))));
    assert!(pair_eq(&pair(None, None), &pair(None, None)));
}

#[test]
fn pair_up_groups_by_twos() {
    let values = vec![Some("a".to_string()), None, None, Some("b".to_string())];
    assert_eq!(pair_up(values), vec![pair(Some("a"), None), pair(None, Some("b"))]);
    let odd = vec![Some("a".to_string()), Some("b".to_string()), Some("c".to_string())];
    assert_eq!(pair_up(odd), vec![pair(Some("a"), Some("b"))]);
    assert_eq!(pair_up(vec![]), vec![]);
}

#[test]
fn sort_pairs_is_stable() {
    let pairs = vec![
        pair(None, Some("first")),
        pair(Some("b"), Some("1")),
        pair(Some("a"), Some("2")),
        pair(None, Some("second")),
        pair(Some("b"), Some("0")),
        pair(Some("a"), Some("1")),
    ];
    assert_eq!(
        sort_pairs(pairs),
        vec![
            pair(Some("a"), Some("2")),
            pair(Some("a"), Some("1")),
            pair(Some("b"), Some("1")),
            pair(Some("b"), Some("0")),
            pair(None, Some("first")),
            pair(None, Some("second")),
        ]
    );
}

#[test]
fn dedup_pairs_drops_neighbouring_repeats() {
    let pairs = vec![
        pair(Some("a"), Some("1")),
        pair(Some("a"), Some("1")),
        pair(Some("a"), Some("2")),
        pair(Some("a"), Some("1")),
        pair(None, None),
        pair(None, None),
        pair(None, None),
    ];
    assert_eq!(
        dedup_pairs(pairs),
        vec![
            pair(Some("a"), Some("1")),
            pair(Some("a"), Some("2")),
            pair(Some("a"), Some("1")),
            pair(None, None),
        ]
    );
}

#[test]
fn apply_policy_filters_and_joins() {
    let pairs = vec![
        pair(Some("a"), Some("1")),
        pair(Some("b"), None),
        pair(None, Some("3")),
    ];
    assert_eq!(
        apply_policy(pairs.clone(), NullPolicy::Strict),
        vec![Bytes::from_static(b"a\x001")]
    );
    assert_eq!(
        apply_policy(pairs, NullPolicy::KeepNullValues),
        vec![Bytes::from_static(b"a\x001"), Bytes::from_static(b"b\0")]
    );
}

#[test]
fn normalize_pairs_gives_the_spans() {
    let values = vec![
        Some("b".to_string()),
        Some("2".to_string()),
        Some("a".to_string()),
        None,
        Some("b".to_string()),
        Some("2".to_string()),
    ];
    assert_eq!(
        normalize_pairs(values.clone(), NullPolicy::KeepNullValues),
        Ok(vec![Bytes::from_static(b"a\0"), Bytes::from_static(b"b\x002")])
    );
    assert_eq!(
        normalize_pairs(values, NullPolicy::Strict),
        Ok(vec![Bytes::from_static(b"b\x002")])
    );
    assert_eq!(
        normalize_pairs(vec![None], NullPolicy::Strict),
        Err(FingerprintError::InvalidArity)
    );
}

#[test]
fn build_joins_with_the_separator() {
    let spans = vec![
        Bytes::from_static(b"ab"),
        Bytes::new(),
        Bytes::from_static(b"c"),
    ];
    assert_eq!(build(&spans), &b"ab\0\0c"[..]);
    assert_eq!(build(&vec![]), &b""[..]);
    assert_eq!(build(&vec![Bytes::from_static(b"only")]), &b"only"[..]);
    assert_eq!(build(&vec![Bytes::new()]), &b""[..]);
    assert_eq!(join_spans(&spans, b'_'), &b"ab__c"[..]);
}

#[test]
fn encode_all_keeps_the_order() {
    let spans = encode_all(vec!["b".to_string(), "".to_string(), "a".to_string()]);
    assert_eq!(
        spans,
        vec![Bytes::from_static(b"b"), Bytes::new(), Bytes::from_static(b"a")]
    );
}

#[test]
fn deny_null_hands_out_the_strings() {
    assert_eq!(
        deny_null(vec![Some("a".to_string()), Some("b".to_string())]),
        Ok(vec!["a".to_string(), "b".to_string()])
    );
    assert_eq!(deny_null(vec![]), Ok(vec![]));
    assert_eq!(
        deny_null(vec![Some("a".to_string()), None]),
        Err(FingerprintError::NullValue)
    );
}

#[test]
fn canonical_buffers_tell_sequences_apart() {
    let sequences: [&[&'static [u8]]; 6] = [
        &[b"a", b"bc"],
        &[b"ab", b"c"],
        &[b"abc"],
        &[b"a", b"b", b"c"],
        &[b"", b"abc"],
        &[b"abc", b""],
    ];
    for (i, one) in sequences.iter().enumerate() {
        for (j, other) in sequences.iter().enumerate() {
            let left: Vec<Bytes> = one.iter().map(|s| Bytes::from_static(s)).collect();
            let right: Vec<Bytes> = other.iter().map(|s| Bytes::from_static(s)).collect();
            assert_eq!(build(&left) == build(&right), i == j);
        }
    }
}

#[test]
fn a_separator_inside_a_span_can_collide() {
    let one = vec![Bytes::from_static(b"a\0b")];
    let other = vec![Bytes::from_static(b"a"), Bytes::from_static(b"b")];
    assert_eq!(build(&one), build(&other));
    assert_eq!(build(&vec![]), build(&vec![Bytes::new()]));
}

#[test]
fn different_strings_have_different_encodings() {
    let strings = ["", "a", "A", "ab", "\u{e9}", "e\u{301}", "\u{20ac}"];
    for (i, one) in strings.iter().enumerate() {
        for (j, other) in strings.iter().enumerate() {
            assert_eq!(encode(one.to_string()) == encode(other.to_string()), i == j);
        }
    }
}
