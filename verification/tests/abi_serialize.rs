use pbc_sdk::abi::{
    abi_header_bytes, find_state_index, EnumVariant, FnAbi, NamedEntityAbi, NamedTypeSpec,
};
use pbc_sdk::address::Shortname;
use pbc_sdk::{FunctionKind, FunctionName};

/// The type specification of `u64`.
const U64_TYPE: u8 = 0x04;

#[test]
pub fn serialize_named_entity_0() {
    let obj = NamedEntityAbi::new("name".to_string(), vec![U64_TYPE]);
    let expected_buf = [
        0, 0, 0, 4, // Name Length
        0x6e, 0x61, 0x6d, 0x65, // Name
        0x04, // Field 0 type ordinal
    ];
    let mut gotten_buf = Vec::<u8>::new();
    obj.serialize_abi(&mut gotten_buf);
    assert_eq!(gotten_buf.as_slice(), expected_buf);
}

#[test]
pub fn serialize_type_abi_0() {
    let obj =
        NamedTypeSpec::new_struct("name".to_string(), "some_uid".to_string(), vec![0x00, 0x00]);
    let expected_buf = [
        1, // It's a struct
        0, 0, 0, 4, // Name Length
        0x6e, 0x61, 0x6d, 0x65, // Name
        0, 0, 0, 0, // Arguments length
    ];
    let mut gotten_buf = Vec::<u8>::new();
    obj.serialize_abi(&mut gotten_buf);
    assert_eq!(gotten_buf.as_slice(), expected_buf);
}

#[test]
pub fn serialize_type_abi_1() {
    let mut obj =
        NamedTypeSpec::new_struct("name".to_string(), "some_uid".to_string(), vec![0x00, 0x00]);

    let field = NamedEntityAbi::new("field".to_string(), vec![U64_TYPE]);

    obj.add_field(field);
    let expected_buf = [
        1, // It's a struct
        0, 0, 0, 4, // Name Length
        0x6e, 0x61, 0x6d, 0x65, // Name
        0, 0, 0, 1, // Arguments length
        0, 0, 0, 5, // Field 0 name length
        0x66, 0x69, 0x65, 0x6c, 0x64, // Field 0 name
        0x04, // Field 0 type ordinal
    ];
    let mut gotten_buf = Vec::<u8>::new();
    obj.serialize_abi(&mut gotten_buf);
    assert_eq!(gotten_buf.as_slice(), expected_buf);
}

#[test]
pub fn serialize_fn_abi_0() {
    let obj = FnAbi::new("name".to_string(), None, FunctionKind::Action);
    let expected_buf = [
        2, // Function kind: Action
        0, 0, 0, 4, // Name Length
        0x6e, 0x61, 0x6d, 0x65, // Name
        255, 166, 141, 149, 8, // shortname
        0, 0, 0, 0, // Arguments length
    ];
    let mut gotten_buf = Vec::<u8>::new();
    obj.serialize_abi(&mut gotten_buf);
    assert_eq!(gotten_buf.as_slice(), expected_buf);
}

#[test]
fn fn_abi_with_arguments_and_secret() {
    let mut obj = FnAbi::from_name(
        FunctionName::new("f".to_string(), Some(Shortname::from_u32(1))),
        FunctionKind::ZkSecretInputWithExplicitType,
    );
    obj.argument("a".to_string(), vec![0x01]);
    obj.default_secret_argument();
    let mut gotten_buf = Vec::<u8>::new();
    obj.serialize_abi(&mut gotten_buf);
    let expected: Vec<u8> = [
        vec![0x17],
        vec![0, 0, 0, 1, b'f'],
        vec![1],
        vec![0, 0, 0, 1],
        vec![0, 0, 0, 1, b'a', 0x01],
        vec![0, 0, 0, 12],
        b"secret_input".to_vec(),
        vec![0x08],
    ]
    .concat();
    assert_eq!(gotten_buf, expected);
}

#[test]
fn enum_type_with_variant() {
    let mut obj = NamedTypeSpec::new_enum("E".to_string(), "e".to_string(), vec![]);
    obj.add_variant(EnumVariant::new(3, vec![0x00, 0x01]));
    obj.add_field(NamedEntityAbi::new("ignored".to_string(), vec![1]));
    let mut gotten_buf = Vec::<u8>::new();
    obj.serialize_abi(&mut gotten_buf);
    assert_eq!(gotten_buf, vec![2, 0, 0, 0, 1, b'E', 0, 0, 0, 1, 3, 0x00, 0x01]);
}

#[test]
fn abi_header_holds_magic_and_versions() {
    let header = abi_header_bytes([10, 0, 1], [5, 2, 0]);
    assert_eq!(&header[..6], b"PBCABI");
    assert_eq!(&header[6..], &[10, 0, 1, 5, 2, 0]);
}

#[test]
fn state_index_is_found_by_name() {
    let types = vec![
        NamedTypeSpec::new_struct("Other".to_string(), "a".to_string(), vec![0]),
        NamedTypeSpec::new_enum("Kind".to_string(), "b".to_string(), vec![1]),
        NamedTypeSpec::new_struct("State".to_string(), "c".to_string(), vec![2]),
    ];
    assert_eq!(find_state_index(&"State".to_string(), &types), 2);
    assert_eq!(find_state_index(&"Other".to_string(), &types), 0);
}
