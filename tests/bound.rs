use storage_keys::bound::namespace_upper_bound;

#[test]
fn test_namespace_upper_bound() {
    assert_eq!(namespace_upper_bound(b"bob"), b"boc".to_vec());
    assert_eq!(namespace_upper_bound(b"fo\xfe"), b"fo\xff".to_vec());
    assert_eq!(namespace_upper_bound(b"fo\xff"), b"fp\x00".to_vec());
    // multiple \xff roll over
    assert_eq!(
        namespace_upper_bound(b"fo\xff\xff\xff"),
        b"fp\x00\x00\x00".to_vec()
    );
    // \xff not at the end are ignored
    assert_eq!(namespace_upper_bound(b"\xffabc"), b"\xffabd".to_vec());
}

#[test]
fn upper_bound_of_all_max_is_all_zero() {
    assert_eq!(namespace_upper_bound(b"\xff\xff"), b"\x00\x00".to_vec());
}

#[test]
fn upper_bound_of_single_byte() {
    assert_eq!(namespace_upper_bound(b"\x00"), b"\x01".to_vec());
    assert_eq!(namespace_upper_bound(b"\xfe"), b"\xff".to_vec());
}

#[test]
fn upper_bound_delimits_prefixed_keys() {
    let prefix: &[u8] = b"fo\xfe";
    let bound = namespace_upper_bound(prefix);
    let inside: [&[u8]; 3] = [b"fo\xfe", b"fo\xfe\x00", b"fo\xfe\xff\xff"];
    let outside: [&[u8]; 4] = [b"fo", b"fo\xfd\xff", b"fo\xff", b"fp"];
    for key in inside.iter() {
        assert!(prefix <= *key && *key < bound.as_slice());
    }
    for key in outside.iter() {
        assert!(!(prefix <= *key && *key < bound.as_slice()));
    }
}
