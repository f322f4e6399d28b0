use ehttpd::bytes::data::{Data, DataParseExt, DataSliceExt};

/// Tests the data representation.
fn test_data(bytes: Data, as_ref: &[u8], as_debug: &str) {
    // Test data
    assert_eq!(bytes.to_vec().as_slice(), as_ref);
    assert!(bytes.eq_bytes(as_ref));

    // Validate debug representation
    let debug = format!("{bytes:?}");
    assert_eq!(debug, as_debug);

    // Validate cloning
    let clone = bytes.clone();
    assert_eq!(clone.to_vec().as_slice(), as_ref);

    // Validate valid subcopy
    let range = match bytes.len() {
        0 | 1 => 0..0,
        2 => 0..1,
        _ => 1..2,
    };
    let subcopy_valid = bytes.subcopy(range.start, range.end).expect("failed to create valid subcopy");
    assert_eq!(subcopy_valid.to_vec().as_slice(), &as_ref[range.start..range.end]);

    // Validate invalid subcopy
    let subcopy_invalid = bytes.subcopy(0, as_ref.len() + 1);
    assert!(subcopy_invalid.is_none());
}

/// Tests empty data
#[test]
fn empty() {
    let bytes = Data::Empty;
    test_data(bytes, b"", "Empty")
}

/// Tests static data
#[test]
fn static_() {
    let bytes = Data::Static(b"Testolope");
    test_data(bytes, b"Testolope", "Static([84, 101, 115, 116, 111, 108, 111, 112, 101])")
}

/// Tests reference-counted data
#[test]
fn rc_vec() {
    let bytes = Data::new_arcvec(b"Testolope".to_vec());
    test_data(
        bytes,
        b"Testolope",
        "ArcVec { backing: [84, 101, 115, 116, 111, 108, 111, 112, 101], range: 0..9 }",
    )
}

/// Tests owned vector data
#[test]
fn owned_vec() {
    let bytes = Data::Vec(b"Testolope".to_vec());
    test_data(bytes, b"Testolope", "Vec([84, 101, 115, 116, 111, 108, 111, 112, 101])")
}

/// A subcopy realizes exactly the requested slice of the view, and shares
/// the backing of a reference-counted container.
#[test]
fn subcopy_slices_the_view() {
    let bytes = Data::new_arcvec(b"hello world".to_vec());
    let sub = bytes.subcopy(6, 11).expect("range fits the view");
    assert_eq!(sub.to_vec(), b"world".to_vec());

    // A subcopy of a subcopy validates against the narrowed view.
    let sub2 = sub.subcopy(1, 3).expect("range fits the narrowed view");
    assert_eq!(sub2.to_vec(), b"or".to_vec());
    assert!(sub.subcopy(0, 6).is_none());

    // An inverted range yields nothing.
    assert!(bytes.subcopy(5, 2).is_none());
}

/// Splitting on a pattern that occurs once yields the prefix and leaves
/// the suffix in place.
#[test]
fn split_off_once() {
    let mut bytes = Data::new_arcvec(b"key: value\r\nrest".to_vec());
    let prefix = bytes.split_off(b"\r\n").expect("pattern occurs");
    assert_eq!(prefix.to_vec(), b"key: value".to_vec());
    assert_eq!(bytes.to_vec(), b"rest".to_vec());
}

/// Splitting always cuts at the first occurrence.
#[test]
fn split_off_first_occurrence() {
    let mut bytes = Data::Vec(b"a|b|c".to_vec());
    let prefix = bytes.split_off(b"|").expect("pattern occurs");
    assert_eq!(prefix.to_vec(), b"a".to_vec());
    assert_eq!(bytes.to_vec(), b"b|c".to_vec());
}

/// Splitting on an absent pattern yields nothing and leaves the container
/// unchanged.
#[test]
fn split_off_absent() {
    let mut bytes = Data::Vec(b"no terminator here".to_vec());
    assert!(bytes.split_off(b"\r\n").is_none());
    assert_eq!(bytes.to_vec(), b"no terminator here".to_vec());
}

/// Trimming strips ASCII whitespace from both ends and is idempotent.
#[test]
fn trimmed_strips_and_is_idempotent() {
    let bytes = Data::Vec(b" \t hi there \r\n".to_vec());
    let once = bytes.trimmed();
    assert_eq!(once.to_vec(), b"hi there".to_vec());
    let twice = once.trimmed();
    assert_eq!(twice.to_vec(), once.to_vec());
}

/// Trimming an all-whitespace container yields an empty view.
#[test]
fn trimmed_all_whitespace() {
    let bytes = Data::Vec(b" \t\r\n ".to_vec());
    let trimmed = bytes.trimmed();
    assert_eq!(trimmed.len(), 0);
    assert_eq!(trimmed.to_vec(), Vec::<u8>::new());
}

/// Equality is over realized bytes, regardless of the backing variant,
/// and the case-insensitive form folds ASCII letters.
#[test]
fn equality_over_realized_bytes() {
    let arc = Data::new_arcvec(b"Value".to_vec());
    let owned = Data::Vec(b"Value".to_vec());
    assert!(arc.eq_bytes(b"Value"));
    assert!(owned.eq_bytes(b"Value"));
    assert!(!arc.eq_bytes(b"value"));
    assert!(arc.eq_bytes_ignore_case(b"vAlUe"));
    assert!(!arc.eq_bytes_ignore_case(b"vAlUes"));
}
