use std::fmt::Debug;

use pbc_sdk::address::{Address, AddressType};
use pbc_sdk::context::{CallbackContext, ContractContext, ExecutionResult};
use pbc_sdk::sorted_vec_map::SortedVecMap;
use pbc_sdk::traits::{ReadRPC, ReadWriteState, WriteRPC};
use pbc_sdk::sbi::Sbi32;
use pbc_sdk::zk::{CalculationStatus, SecretVarId, ZkClosed, ZkInputDef, ZkState};
use pbc_sdk::{BlsPublicKey, BlsSignature, PublicKey, U256};

const EXAMPLE_ADDRESS_1: Address = Address {
    address_type: AddressType::PublicContract,
    identifier: [
        2, 32, 3, 2, 2, 3, 2, 3, 2, 32, 32, 3, 23, 2, 3, 23, 2, 3, 23, 2,
    ],
};

const EXAMPLE_ADDRESS_2: Address = Address {
    address_type: AddressType::Account,
    identifier: [
        29, 3, 3, 2, 2, 3, 2, 3, 2, 32, 32, 3, 23, 2, 3, 23, 2, 3, 23, 2,
    ],
};

const EXAMPLE_HASH_1: pbc_sdk::primitives::Hash = pbc_sdk::primitives::Hash {
    bytes: [
        0, 1, 23, 213, 124, 23, 3, 1, 23, 12, 31, 23, 123, 24, 3, 2, 2, 3, 2, 3, 2, 32, 32, 3, 23,
        2, 3, 23, 2, 3, 23, 2,
    ],
};

const EXAMPLE_HASH_2: pbc_sdk::primitives::Hash = pbc_sdk::primitives::Hash {
    bytes: [
        124, 25, 3, 1, 23, 12, 31, 23, 123, 26, 13, 3, 123, 32, 3, 2, 2, 3, 2, 3, 2, 32, 32, 3, 23,
        2, 3, 23, 2, 3, 23, 2,
    ],
};

const EXAMPLE_U256: U256 = U256 {
    bytes: [
        124, 25, 3, 1, 23, 12, 31, 23, 123, 26, 13, 3, 123, 32, 3, 2, 2, 3, 2, 3, 2, 32, 32, 3, 23,
        2, 3, 23, 2, 3, 23, 42,
    ],
};

const EXAMPLE_PUBLIC_KEY: PublicKey = PublicKey {
    bytes: [
        124, 25, 3, 1, 23, 12, 31, 23, 123, 26, 13, 3, 123, 32, 3, 2, 2, 3, 2, 3, 2, 32, 32, 3, 23,
        2, 3, 23, 2, 3, 23, 2, 42,
    ],
};

const EXAMPLE_BLS_PUBLIC_KEY: BlsPublicKey = BlsPublicKey {
    bytes: [
        124, 25, 3, 1, 23, 12, 31, 23, 123, 26, 13, 3, 123, 32, 3, 2, 2, 3, 2, 3, 2, 32, 32, 3, 23,
        2, 3, 23, 2, 3, 23, 42, 124, 25, 3, 1, 23, 12, 31, 23, 123, 26, 13, 3, 123, 32, 3, 2, 2, 3,
        2, 3, 2, 32, 32, 3, 23, 2, 3, 23, 2, 3, 23, 42, 124, 25, 3, 1, 23, 12, 31, 23, 123, 26, 13,
        3, 123, 32, 3, 2, 2, 3, 2, 3, 2, 32, 32, 3, 23, 2, 3, 23, 2, 3, 23, 42,
    ],
};

const EXAMPLE_BLS_SIGNATURE: BlsSignature = BlsSignature {
    bytes: [
        124, 25, 3, 1, 23, 12, 31, 23, 123, 26, 13, 3, 123, 32, 3, 2, 2, 3, 2, 3, 2, 32, 32, 3, 23,
        2, 3, 23, 2, 3, 23, 2, 42, 2, 3, 2, 32, 32, 3, 23, 2, 3, 23, 2, 3, 23, 2, 42,
    ],
};

const EXAMPLE_CONTEXT: ContractContext = ContractContext {
    contract_address: EXAMPLE_ADDRESS_1,
    sender: EXAMPLE_ADDRESS_2,
    block_time: 53,
    block_production_time: 53,
    current_transaction: EXAMPLE_HASH_1,
    original_transaction: EXAMPLE_HASH_2,
};

fn example_vec_map() -> SortedVecMap<u8, Vec<String>> {
    let mut map: SortedVecMap<u8, Vec<String>> = SortedVecMap::new();
    map.insert(
        1,
        vec!["my".to_string(), "name".to_string(), "is".to_string()],
    );
    map.insert(2, vec!["what".to_string()]);
    map
}

fn example_callback_context() -> CallbackContext {
    CallbackContext {
        success: true,
        results: vec![
            ExecutionResult {
                succeeded: true,
                return_data: vec![],
            },
            ExecutionResult {
                succeeded: true,
                return_data: vec![],
            },
            ExecutionResult {
                succeeded: true,
                return_data: vec![],
            },
        ],
    }
}

fn canary_rpc_noeq<T: ReadRPC + WriteRPC>(example: &T) -> Vec<u8> {
    // Check serializable
    let mut buf_rpc_1 = Vec::with_capacity(21);
    example.rpc_write_to(&mut buf_rpc_1);

    // Check deserializable
    let example_from_rpc = T::rpc_read_from(&mut buf_rpc_1.as_slice());

    // Check that serialization of deserialized is identical to original
    let mut buf_rpc_2 = Vec::with_capacity(21);
    example_from_rpc.rpc_write_to(&mut buf_rpc_2);
    assert_eq!(buf_rpc_1, buf_rpc_2);

    // Result!
    buf_rpc_2
}

fn canary_rpc<T: ReadRPC + WriteRPC + PartialEq + Debug>(example: &T) -> Vec<u8> {
    // Check serializable
    let buf_rpc = canary_rpc_noeq(example);

    // Check deserialize identically
    let example_from_rpc = T::rpc_read_from(&mut buf_rpc.as_slice());

    assert_eq!(example, &example_from_rpc);
    buf_rpc
}

fn canary_state<T: ReadWriteState + PartialEq + Debug>(example: &T) -> Vec<u8> {
    // Check serializable identically
    let mut buf_state = Vec::with_capacity(21);
    example.state_write_to(&mut buf_state);

    // Check deserialize identically
    let example_from_state = T::state_read_from(&mut buf_state.as_slice());

    assert_eq!(example, &example_from_state);
    buf_state
}

fn canary_rpc_state_eq<T: ReadWriteState + ReadRPC + WriteRPC + PartialEq + Debug>(example: &T) {
    // Check serializable identically
    let buf_rpc = canary_rpc(example);
    let buf_state = canary_state(example);
    assert_eq!(buf_rpc, buf_state);
}

#[test]
fn canary_address_type() {
    let examples = vec![
        AddressType::Account,
        AddressType::SystemContract,
        AddressType::PublicContract,
        AddressType::ZkContract,
    ];
    for example in examples {
        canary_rpc_state_eq(&example);
    }
}

#[test]
fn canary_address() {
    canary_rpc_state_eq(&EXAMPLE_ADDRESS_1);
    canary_rpc_state_eq(&EXAMPLE_ADDRESS_2);
}

#[test]
fn canary_u256() {
    // Canary rpc
    let example_u256 = EXAMPLE_U256;
    let mut buf = Vec::with_capacity(example_u256.bytes.len());
    example_u256.rpc_write_to(&mut buf);
    let read_example_u256 = U256::rpc_read_from(&mut buf.as_slice());
    assert_eq!(read_example_u256, example_u256);
    canary_state(&EXAMPLE_U256);
}

#[test]
fn canary_hash() {
    canary_rpc_state_eq(&EXAMPLE_HASH_1);
    canary_rpc_state_eq(&EXAMPLE_HASH_2);
}

#[test]
fn canary_public_key() {
    canary_rpc_state_eq(&EXAMPLE_PUBLIC_KEY);
}

#[test]
fn canary_bls_public_key() {
    canary_rpc_state_eq(&EXAMPLE_BLS_PUBLIC_KEY);
}

#[test]
fn canary_bls_signature() {
    canary_rpc_state_eq(&EXAMPLE_BLS_SIGNATURE);
}

#[test]
fn canary_sorted_vec_map() {
    let buffer = canary_state(&example_vec_map());
    let expected: Vec<u8> = vec![
        2, 0, 0, 0, // length of the map
        1, // key
        3, 0, 0, 0, // Length of vec
        2, 0, 0, 0, // String length
        b'm', b'y', // "my"
        4, 0, 0, 0, // String length
        b'n', b'a', b'm', b'e', // "name"
        2, 0, 0, 0, // String length
        b'i', b's', // "is"
        2,    // key
        1, 0, 0, 0, // Length of vec
        4, 0, 0, 0, // String length
        b'w', b'h', b'a', b't', // "what"
    ];

    assert_eq!(buffer, expected);
}

#[test]
fn canary_context() {
    canary_rpc(&EXAMPLE_CONTEXT);
}

#[test]
fn canary_callback_context() {
    canary_rpc_noeq(&example_callback_context());
}

#[test]
fn canary_secret_var() {
    let examples = vec![
        SecretVarId::new(4),
        SecretVarId::new(30),
        SecretVarId::new(31),
    ];
    for example in examples {
        let buf_rpc = canary_rpc(&example);
        let buf_state = canary_state(&example);
        assert_ne!(buf_rpc, buf_state);
    }
}

#[test]
fn u256_rpc_is_reversed_state() {
    let mut state = Vec::new();
    EXAMPLE_U256.state_write_to(&mut state);
    let mut rpc = Vec::new();
    EXAMPLE_U256.rpc_write_to(&mut rpc);
    state.reverse();
    assert_eq!(state, rpc);
}

#[test]
fn zk_input_def_rpc_bytes() {
    let def: ZkInputDef<u32, i32> = ZkInputDef::with_metadata(0xFF);
    let mut buf = Vec::new();
    def.rpc_write_to(&mut buf);
    assert_eq!(buf, vec![0, 0, 0, 1, 0, 0, 0, 32, 0, 0xFF, 0, 0, 0]);
}

fn zk_closed_bytes(id: u32, owner: &Address, metadata: u32, data: Option<Vec<u8>>) -> Vec<u8> {
    let mut bytes = Vec::new();
    SecretVarId::new(id).state_write_to(&mut bytes);
    owner.state_write_to(&mut bytes);
    false.state_write_to(&mut bytes);
    metadata.state_write_to(&mut bytes);
    data.state_write_to(&mut bytes);
    bytes
}

#[test]
fn canary_zk_input_def() {
    for metadata in [1u32, 2, 0xFF] {
        let def = ZkInputDef::<u32, Sbi32>::with_metadata(metadata);
        let mut first = Vec::new();
        def.rpc_write_to(&mut first);
        let mut second = Vec::new();
        def.rpc_write_to(&mut second);
        assert_eq!(first, second);
        let mut expected = vec![0, 0, 0, 1, 0, 0, 0, 32, 0];
        expected.extend_from_slice(&metadata.to_le_bytes());
        assert_eq!(first, expected);
    }
}

#[test]
fn canary_zk_closed() {
    let examples = [
        zk_closed_bytes(31, &EXAMPLE_ADDRESS_1, 0xFF, None),
        zk_closed_bytes(30, &EXAMPLE_ADDRESS_2, 0xFF00, None),
        zk_closed_bytes(4, &EXAMPLE_ADDRESS_1, 0xDEADBEEF, Some(vec![1, 2, 3])),
    ];
    for bytes in examples {
        let mut reader: &[u8] = &bytes;
        let closed = ZkClosed::<u32>::state_read_from(&mut reader);
        assert!(reader.is_empty());
        let mut written = Vec::new();
        closed.state_write_to(&mut written);
        assert_eq!(written, bytes);
        let mut reader2: &[u8] = &written;
        let again = ZkClosed::<u32>::state_read_from(&mut reader2);
        let mut written2 = Vec::new();
        again.state_write_to(&mut written2);
        assert_eq!(written2, bytes);
    }
}

#[test]
fn canary_zk_state() {
    let bytes: Vec<u8> = vec![
        0, 255, 255, 255, 255, 255, 255, 255, 254, 255, 255, 255, 253, 255, 255, 255, 252, 255,
        255, 255, 251,
    ];
    let mut reader: &[u8] = &bytes;
    let state = ZkState::<u32>::rpc_read_from(&mut reader);
    assert!(reader.is_empty());
    assert_eq!(state.calculation_state, CalculationStatus::Waiting);
    let mut trees = Vec::new();
    state.pending_inputs.state_write_to(&mut trees);
    state.secret_variables.state_write_to(&mut trees);
    state.data_attestations.state_write_to(&mut trees);
    state.event_subscriptions.state_write_to(&mut trees);
    state.external_events.state_write_to(&mut trees);
    assert_eq!(trees, bytes[1..].to_vec());
}
