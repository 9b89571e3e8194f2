use storage_keys::encoding::{checked_length_prefixed_nested, to_length_prefixed_nested, KeyError};

#[test]
fn to_length_prefixed_nested_works() {
    assert_eq!(to_length_prefixed_nested(&[]), b"");
    assert_eq!(to_length_prefixed_nested(&[b""]), b"\x00\x00");
    assert_eq!(to_length_prefixed_nested(&[b"", b""]), b"\x00\x00\x00\x00");

    assert_eq!(to_length_prefixed_nested(&[b"a"]), b"\x00\x01a");
    assert_eq!(
        to_length_prefixed_nested(&[b"a", b"ab"]),
        b"\x00\x01a\x00\x02ab"
    );
    assert_eq!(
        to_length_prefixed_nested(&[b"a", b"ab", b"abc"]),
        b"\x00\x01a\x00\x02ab\x00\x03abc"
    );
}

#[test]
fn to_length_prefixed_nested_allows_many_long_namespaces() {
    // The 0xFFFF limit is for each namespace, not for the combination of them

    let long_namespace1 = vec![0xaa; 0xFFFD];
    let long_namespace2 = vec![0xbb; 0xFFFE];
    let long_namespace3 = vec![0xcc; 0xFFFF];

    let prefix =
        to_length_prefixed_nested(&[&long_namespace1, &long_namespace2, &long_namespace3]);
    assert_eq!(&prefix[0..2], b"\xFF\xFD");
    assert_eq!(&prefix[2..(2 + 0xFFFD)], long_namespace1.as_slice());
    assert_eq!(&prefix[(2 + 0xFFFD)..(2 + 0xFFFD + 2)], b"\xFF\xFe");
    assert_eq!(
        &prefix[(2 + 0xFFFD + 2)..(2 + 0xFFFD + 2 + 0xFFFE)],
        long_namespace2.as_slice()
    );
    assert_eq!(
        &prefix[(2 + 0xFFFD + 2 + 0xFFFE)..(2 + 0xFFFD + 2 + 0xFFFE + 2)],
        b"\xFF\xFf"
    );
    assert_eq!(
        &prefix[(2 + 0xFFFD + 2 + 0xFFFE + 2)..(2 + 0xFFFD + 2 + 0xFFFE + 2 + 0xFFFF)],
        long_namespace3.as_slice()
    );
}

#[test]
fn to_length_prefixed_nested_calculates_capacity_correctly() {
    // Those tests cannot guarantee the required capacity was calculated correctly before
    // the vector allocation but increase the likelyhood of a proper implementation.

    let key = to_length_prefixed_nested(&[]);
    assert_eq!(key.capacity(), key.len());

    let key = to_length_prefixed_nested(&[b""]);
    assert_eq!(key.capacity(), key.len());

    let key = to_length_prefixed_nested(&[b"a"]);
    assert_eq!(key.capacity(), key.len());

    let key = to_length_prefixed_nested(&[b"a", b"bc"]);
    assert_eq!(key.capacity(), key.len());

    let key = to_length_prefixed_nested(&[b"a", b"bc", b"def"]);
    assert_eq!(key.capacity(), key.len());
}

#[test]
fn distinct_segmentations_encode_differently() {
    let joined = to_length_prefixed_nested(&[b"ab"]);
    let split = to_length_prefixed_nested(&[b"a", b"b"]);
    let empty_tail = to_length_prefixed_nested(&[b"ab", b""]);
    assert_ne!(joined, split);
    assert_ne!(joined, empty_tail);
    assert_ne!(split, empty_tail);
    assert_ne!(to_length_prefixed_nested(&[]), to_length_prefixed_nested(&[b""]));
}

#[test]
fn length_tag_spans_both_bytes() {
    let segment = vec![7u8; 0x0102];
    let prefix = to_length_prefixed_nested(&[&segment]);
    assert_eq!(prefix.len(), 0x0104);
    assert_eq!(&prefix[0..2], b"\x01\x02");
}

#[test]
fn checked_encoding_accepts_longest_segment() {
    let segment = vec![1u8; 0xFFFF];
    let prefix = checked_length_prefixed_nested(&[b"a", &segment]).unwrap();
    assert_eq!(prefix, to_length_prefixed_nested(&[b"a", &segment]));
}

#[test]
fn checked_encoding_rejects_long_segment() {
    let too_long = vec![0u8; 0x10000];
    let also_too_long = vec![0u8; 0x10001];
    assert_eq!(
        checked_length_prefixed_nested(&[b"ok", &too_long, &also_too_long]),
        Err(KeyError::SegmentTooLong { index: 1, length: 0x10000 })
    );
}

#[test]
fn checked_encoding_of_nothing_is_empty() {
    assert_eq!(checked_length_prefixed_nested(&[]), Ok(vec![]));
}
