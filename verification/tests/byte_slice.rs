use lilliput_core::BytesSlice;

#[test]
fn byte_slice_debug() {
    let bytes = BytesSlice(&[42, 13, 37]);

    assert_eq!(bytes.debug_string(false), "[00101010, 00001101, 00100101]");
    assert_eq!(bytes.debug_string(true), "[0b00101010, 0b00001101, 0b00100101]");
}

#[test]
fn byte_slice_display() {
    let bytes = BytesSlice(&[42, 13, 37]);

    assert_eq!(bytes.display_string(), "[2a, 0d, 25]");
}

#[test]
fn lower_hex() {
    let bytes = BytesSlice(&[42, 13, 37]);

    assert_eq!(bytes.lower_hex_string(false), "2a 0d 25");
    assert_eq!(bytes.lower_hex_string(true), "0x 2a 0d 25");
}

#[test]
fn upper_hex() {
    let bytes = BytesSlice(&[42, 13, 37]);

    assert_eq!(bytes.upper_hex_string(false), "2A 0D 25");
    assert_eq!(bytes.upper_hex_string(true), "0x 2A 0D 25");
}

#[test]
fn octal() {
    let bytes = BytesSlice(&[42, 13, 37]);

    assert_eq!(bytes.octal_string(false), "052 015 045");
    assert_eq!(bytes.octal_string(true), "0o 052 015 045");
}

#[test]
fn binary() {
    let bytes = BytesSlice(&[42, 13, 37]);

    assert_eq!(bytes.binary_string(false), "00101010 00001101 00100101");
    assert_eq!(bytes.binary_string(true), "0b 00101010 00001101 00100101");
}

#[test]
fn iter_walks_all_bytes() {
    let bytes = BytesSlice(&[42, 13, 37]);
    let mut iter = bytes.iter();

    assert_eq!(iter.next(), Some(42));
    assert_eq!(iter.next(), Some(13));
    assert_eq!(iter.next(), Some(37));
    assert_eq!(iter.next(), None);
}
