use pbc_sdk::address::{Address, AddressType};
use pbc_sdk::sorted_vec_map::SortedVecMap;
use pbc_sdk::traits::{ReadRPC, ReadWriteState, WriteRPC};
use std::collections::HashMap;

const EXAMPLE_ADDRESS: Address = Address {
    address_type: AddressType::PublicContract,
    identifier: [
        0, 1, 2, 3, 4, 5, 6, 7, 8, 9, 10, 11, 12, 13, 14, 15, 0x55, 0xAA, 0xDD, 0xFF,
    ],
};

const ADDRESS_TYPES: [AddressType; 5] = [
    AddressType::Account,
    AddressType::SystemContract,
    AddressType::PublicContract,
    AddressType::ZkContract,
    AddressType::GoveranceContract,
];

#[test]
pub fn discriminant_test_rpc() {
    for address_type in ADDRESS_TYPES {
        let rpc = [address_type.discriminant(); 1];
        let mut reader: &[u8] = rpc.as_slice();
        let deserialized: AddressType = AddressType::rpc_read_from(&mut reader);
        assert_eq!(deserialized, address_type);
    }
}

#[test]
pub fn discriminant_test_state() {
    for address_type in ADDRESS_TYPES {
        let rpc = [address_type.discriminant(); 1];
        let mut reader: &[u8] = rpc.as_slice();
        let deserialized: AddressType = AddressType::state_read_from(&mut reader);
        assert_eq!(deserialized, address_type);
    }
}

#[test]
pub fn upper_hex() {
    assert_eq!(
        EXAMPLE_ADDRESS.to_upper_hex(),
        "02000102030405060708090A0B0C0D0E0F55AADDFF"
    );
}

#[test]
pub fn lower_hex() {
    assert_eq!(
        EXAMPLE_ADDRESS.to_lower_hex(),
        "02000102030405060708090a0b0c0d0e0f55aaddff"
    );
}

#[test]
pub fn display() {
    assert_eq!(
        EXAMPLE_ADDRESS.to_display_string(),
        EXAMPLE_ADDRESS.to_upper_hex()
    );
}

#[test]
pub fn address_test_debug() {
    assert_eq!(
        format!("{:?}", EXAMPLE_ADDRESS),
        "Address { address_type: PublicContract, identifier: [0, 1, 2, 3, 4, 5, 6, 7, 8, 9, 10, 11, 12, 13, 14, 15, 85, 170, 221, 255] }"
    );
}

#[test]
pub fn clone_address() {
    let addr: Address = EXAMPLE_ADDRESS;
    assert_eq!(addr, addr.clone());
}

#[test]
pub fn clone_address_type() {
    let addr: AddressType = AddressType::Account;
    assert_eq!(addr, addr.clone());
}

#[test]
#[allow(clippy::nonminimal_bool)]
pub fn partial_ord() {
    let addr: Address = EXAMPLE_ADDRESS;
    assert!(addr <= addr);
    assert!(addr >= addr);
    assert!(!(addr < addr));
    assert!(!(addr > addr));
}

#[test]
pub fn sortedvecmap() {
    let mut map = SortedVecMap::new();
    map.insert(EXAMPLE_ADDRESS, "Hello World");
    map.insert(EXAMPLE_ADDRESS, "Hello World 2");
    assert_eq!(map.get(&EXAMPLE_ADDRESS), Some(&"Hello World 2"));
}

#[test]
pub fn hashmap() {
    let mut map = HashMap::new();
    map.insert(EXAMPLE_ADDRESS, "Hello World");
    map.insert(EXAMPLE_ADDRESS, "Hello World 2");
    assert_eq!(map.get(&EXAMPLE_ADDRESS), Some(&"Hello World 2"));
}

#[test]
pub fn address_bytes_in_both_formats() {
    let mut state = Vec::new();
    EXAMPLE_ADDRESS.state_write_to(&mut state);
    let mut rpc = Vec::new();
    EXAMPLE_ADDRESS.rpc_write_to(&mut rpc);
    assert_eq!(state, rpc);
    assert_eq!(state.len(), 21);
    assert_eq!(state[0], 2);
    assert_eq!(&state[1..], &EXAMPLE_ADDRESS.identifier[..]);
}

#[test]
pub fn unknown_address_type_byte_is_none() {
    assert_eq!(AddressType::from_discriminant(4), Some(AddressType::GoveranceContract));
    assert_eq!(AddressType::from_discriminant(5), None);
}

#[test]
pub fn addresses_ordered_by_type_then_identifier() {
    let a = Address { address_type: AddressType::Account, identifier: [9; 20] };
    let b = Address { address_type: AddressType::SystemContract, identifier: [0; 20] };
    let c = Address { address_type: AddressType::SystemContract, identifier: [1; 20] };
    let mut map = SortedVecMap::new();
    map.insert(c, 3);
    map.insert(a, 1);
    map.insert(b, 2);
    assert_eq!(map.into_values(), vec![1, 2, 3]);
}
