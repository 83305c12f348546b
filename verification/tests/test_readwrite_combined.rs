use std::fmt::Debug;

use pbc_sdk::traits::{ReadRPC, ReadWriteState, WriteRPC};

fn assert_rpc<T: ReadRPC + WriteRPC + Eq + Debug + Clone>(expected: T) {
    let mut out: Vec<u8> = Vec::new();
    expected.rpc_write_to(&mut out);
    let mut reader: &[u8] = out.as_slice();
    let actual = T::rpc_read_from(&mut reader);
    assert_eq!(actual, expected);
    assert!(reader.is_empty());
}

fn assert_state<T: ReadWriteState + Eq + Debug + Clone>(expected: T) {
    let mut out: Vec<u8> = Vec::new();
    expected.state_write_to(&mut out);
    let mut reader: &[u8] = out.as_slice();
    let actual = T::state_read_from(&mut reader);
    assert_eq!(actual, expected);
    assert!(reader.is_empty());
}

fn assert_serializes<T: ReadRPC + WriteRPC + ReadWriteState + Eq + Debug + Clone>(expected: T) {
    assert_rpc(expected.clone());
    assert_state(expected);
}

#[test]
pub fn vectors() {
    let simple = vec![42u64, 43u64];
    assert_serializes(simple.clone());
    assert_serializes(vec![simple.clone(), simple]);
}

#[test]
pub fn option() {
    assert_serializes(None::<String>);
    assert_serializes(Some(vec![42u64, 43u64]));

    let complex = vec![Some(42u64), Some(43u64)];
    assert_serializes(Some(complex.clone()));
    assert_serializes(complex);
}

#[test]
pub fn simple_types() {
    assert_serializes(u8::MIN);
    assert_serializes(u8::MAX);
    assert_serializes(i8::MIN);
    assert_serializes(i8::MAX);

    assert_serializes(u16::MIN);
    assert_serializes(u16::MAX);
    assert_serializes(i16::MIN);
    assert_serializes(i16::MAX);

    assert_serializes(u32::MIN);
    assert_serializes(u32::MAX);
    assert_serializes(i32::MIN);
    assert_serializes(i32::MAX);

    assert_serializes(u64::MIN);
    assert_serializes(u64::MAX);
    assert_serializes(i64::MIN);
    assert_serializes(i64::MAX);

    assert_serializes(u128::MIN);
    assert_serializes(u128::MAX);
    assert_serializes(i128::MIN);
    assert_serializes(i128::MAX);
}

#[test]
pub fn strings() {
    assert_serializes("".to_string());
    assert_serializes("This is a string".to_string());
    assert_serializes("Tæstång unícöde".to_string());
}

#[test]
pub fn integer_byte_orders() {
    let mut state = Vec::new();
    0x01020304u32.state_write_to(&mut state);
    let mut rpc = Vec::new();
    0x01020304u32.rpc_write_to(&mut rpc);
    assert_eq!(state, vec![4, 3, 2, 1]);
    assert_eq!(rpc, vec![1, 2, 3, 4]);
    let mut neg = Vec::new();
    (-2i16).state_write_to(&mut neg);
    assert_eq!(neg, vec![0xFE, 0xFF]);
}

#[test]
pub fn string_lengths_in_both_formats() {
    let mut state = Vec::new();
    "ab".to_string().state_write_to(&mut state);
    let mut rpc = Vec::new();
    "ab".to_string().rpc_write_to(&mut rpc);
    assert_eq!(state, vec![2, 0, 0, 0, b'a', b'b']);
    assert_eq!(rpc, vec![0, 0, 0, 2, b'a', b'b']);
}

#[test]
fn option_and_bool_markers_reserialize() {
    for bytes in [vec![0u8], vec![1u8, 5]] {
        let mut reader: &[u8] = &bytes;
        let value = Option::<u8>::state_read_from(&mut reader);
        let mut out = Vec::new();
        value.state_write_to(&mut out);
        assert_eq!(out, bytes);
    }
    for byte in [0u8, 1] {
        let mut reader: &[u8] = &[byte];
        let value = bool::state_read_from(&mut reader);
        assert_eq!(value, byte == 1);
        let mut out = Vec::new();
        value.state_write_to(&mut out);
        assert_eq!(out, vec![byte]);
    }
}

#[test]
fn vectors_and_strings_reserialize() {
    let vec_bytes: Vec<u8> = vec![2, 0, 0, 0, 1, 2, 3, 4];
    let mut reader: &[u8] = &vec_bytes;
    let v = Vec::<u16>::state_read_from(&mut reader);
    assert_eq!(v, vec![0x0201, 0x0403]);
    let mut out = Vec::new();
    v.state_write_to(&mut out);
    assert_eq!(out, vec_bytes);

    let string_bytes: Vec<u8> = vec![3, 0, 0, 0, b'a', 0xc3, 0xa9];
    let mut reader: &[u8] = &string_bytes;
    let s = String::state_read_from(&mut reader);
    assert_eq!(s, "a\u{e9}");
    let mut out = Vec::new();
    s.state_write_to(&mut out);
    assert_eq!(out, string_bytes);
}
