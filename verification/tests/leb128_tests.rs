use pbc_sdk::leb128::to_leb128_bytes;

#[test]
fn leb() {
    assert_eq!(to_leb128_bytes(0), vec![0]);
    assert_eq!(to_leb128_bytes(1), vec![1]);
    assert_eq!(to_leb128_bytes(65), vec![65]);
    assert_eq!(to_leb128_bytes(127), vec![127]);
    assert_eq!(to_leb128_bytes(128), vec![128, 1]);
    assert_eq!(to_leb128_bytes(192), vec![192, 1]);
    assert_eq!(to_leb128_bytes(255), vec![255, 1]);
    assert_eq!(to_leb128_bytes(256), vec![128, 2]);
    assert_eq!(to_leb128_bytes(624485), vec![0xE5, 0x8E, 0x26]);
    assert_eq!(
        to_leb128_bytes(0xFFFFFFFF),
        vec![0xFF, 0xFF, 0xFF, 0xFF, 0x0F]
    );
}

#[test]
fn leb_lengths() {
    assert_eq!(to_leb128_bytes(16383).len(), 2);
    assert_eq!(to_leb128_bytes(16384), vec![0x80, 0x80, 0x01]);
}
