use pbc_sdk::address::{Address, AddressType};
use pbc_sdk::context::{ContractContext, ExecutionResult};
use pbc_sdk::traits::WriteRPC;

const EXAMPLE_CONTEXT: ContractContext = ContractContext {
    contract_address: Address {
        address_type: AddressType::PublicContract,
        identifier: [
            2, 32, 3, 2, 2, 3, 2, 3, 2, 32, 32, 3, 23, 2, 3, 23, 2, 3, 23, 2,
        ],
    },
    sender: Address {
        address_type: AddressType::Account,
        identifier: [
            29, 3, 3, 2, 2, 3, 2, 3, 2, 32, 32, 3, 23, 2, 3, 23, 2, 3, 23, 2,
        ],
    },
    block_time: 53,
    block_production_time: 53,
    current_transaction: pbc_sdk::primitives::Hash {
        bytes: [
            0, 1, 23, 213, 124, 23, 3, 1, 23, 12, 31, 23, 123, 24, 3, 2, 2, 3, 2, 3, 2, 32, 32, 3,
            23, 2, 3, 23, 2, 3, 23, 2,
        ],
    },
    original_transaction: pbc_sdk::primitives::Hash {
        bytes: [
            124, 25, 3, 1, 23, 12, 31, 23, 123, 26, 13, 3, 123, 32, 3, 2, 2, 3, 2, 3, 2, 32, 32, 3,
            23, 2, 3, 23, 2, 3, 23, 2,
        ],
    },
};

#[test]
fn context_tests_debug() {
    assert_eq!(format!("{:?}", EXAMPLE_CONTEXT), "ContractContext { contract_address: Address { address_type: PublicContract, identifier: [2, 32, 3, 2, 2, 3, 2, 3, 2, 32, 32, 3, 23, 2, 3, 23, 2, 3, 23, 2] }, sender: Address { address_type: Account, identifier: [29, 3, 3, 2, 2, 3, 2, 3, 2, 32, 32, 3, 23, 2, 3, 23, 2, 3, 23, 2] }, block_time: 53, block_production_time: 53, current_transaction: Hash { bytes: [0, 1, 23, 213, 124, 23, 3, 1, 23, 12, 31, 23, 123, 24, 3, 2, 2, 3, 2, 3, 2, 32, 32, 3, 23, 2, 3, 23, 2, 3, 23, 2] }, original_transaction: Hash { bytes: [124, 25, 3, 1, 23, 12, 31, 23, 123, 26, 13, 3, 123, 32, 3, 2, 2, 3, 2, 3, 2, 32, 32, 3, 23, 2, 3, 23, 2, 3, 23, 2] } }");
}

#[test]
fn test_get_return_data() {
    let mut e = ExecutionResult {
        succeeded: false,
        return_data: vec![],
    };
    42u64.rpc_write_to(&mut e.return_data);
    let return_data_u64 = e.get_return_data::<u64>();
    assert_eq!(return_data_u64, 42);

    let mut e = ExecutionResult {
        succeeded: false,
        return_data: vec![],
    };
    String::from("Hello").rpc_write_to(&mut e.return_data);
    let return_data_string = e.get_return_data::<String>();
    assert_eq!(return_data_string, "Hello");

    let mut e = ExecutionResult {
        succeeded: false,
        return_data: vec![],
    };
    true.rpc_write_to(&mut e.return_data);
    let return_data_bool = e.get_return_data::<bool>();
    assert!(return_data_bool)
}

#[test]
fn context_rpc_layout() {
    let mut buf = Vec::new();
    EXAMPLE_CONTEXT.rpc_write_to(&mut buf);
    assert_eq!(buf.len(), 21 + 21 + 8 + 8 + 32 + 32);
    assert_eq!(&buf[42..50], &[0, 0, 0, 0, 0, 0, 0, 53]);
}
