use pbc_sdk::address::{Address, AddressType, Shortname, ShortnameCallback};
use pbc_sdk::context::ExecutionResult;
use pbc_sdk::events::{EventGroup, Interaction};
use pbc_sdk::traits::{ReadRPC, WriteRPC};

const DEFAULT_ADDRESS: Address = Address {
    address_type: AddressType::PublicContract,
    identifier: [0; 20],
};

const TEST_ADDRESS: [u8; 20] = [0, 1, 2, 3, 4, 5, 6, 7, 8, 9, 0, 1, 2, 3, 4, 5, 6, 7, 8, 9];

fn to_bytes<T: WriteRPC>(val: T) -> Vec<u8> {
    let mut vec = Vec::new();
    val.rpc_write_to(&mut vec);
    vec
}

#[test]
fn some_test() {
    let mut e = EventGroup::builder();

    e.call(DEFAULT_ADDRESS, Shortname::from_be_bytes(&[0x33]).unwrap())
        .done();

    e.call(DEFAULT_ADDRESS, Shortname::from_be_bytes(&[0x79]).unwrap())
        .argument(99u8)
        .argument(DEFAULT_ADDRESS)
        .with_cost(100010)
        .done();

    e.build();
}

#[test]
fn should_have_return_data_if_no_callback() {
    let mut e = EventGroup::builder();
    e.return_data(42u64);
    let event_group = e.build();
    assert!(event_group.return_data().is_some());
}

#[test]
fn can_return_struct() {
    let mut e = EventGroup::builder();
    let some_string = "Hello World".to_string();
    e.return_data(some_string.clone());
    let event_group = e.build();

    let mut execution_result = ExecutionResult {
        succeeded: false,
        return_data: vec![],
    };
    execution_result.return_data = event_group.return_data().unwrap().data();
    let returned_some_string = execution_result.get_return_data::<String>();
    assert_eq!(returned_some_string, some_string);
}

#[test]
pub fn single_interaction_with_cost() {
    let interaction = Interaction {
        dest: Address {
            address_type: AddressType::PublicContract,
            identifier: TEST_ADDRESS,
        },
        cost: Some(42),
        from_original_sender: false,
        payload: vec![1, 2, 3, 4, 5, 6, 7, 8],
        cost_from_contract: false,
    };

    let vec1 = to_bytes(interaction);
    assert_eq!(
        vec1,
        vec![
            2, // Address type
            0, 1, 2, 3, 4, 5, 6, 7, 8, 9, 0, 1, 2, 3, 4, 5, 6, 7, 8, 9, // Address ident
            0, 0, 0, 8, // Payload len
            1, 2, 3, 4, 5, 6, 7, 8, // payload
            0, // Send from contract
            1, // Cost exists
            0, 0, 0, 0, 0, 0, 0, 42, // Cost is 42
            0, // Cost paid by the sender
        ]
    );
}

#[test]
pub fn single_interaction_with_no_cost() {
    let interaction = Interaction {
        dest: Address {
            address_type: AddressType::PublicContract,
            identifier: TEST_ADDRESS,
        },
        cost: None,
        from_original_sender: true,
        payload: vec![1, 2, 3, 4, 5, 6, 7, 8],
        cost_from_contract: false,
    };

    let vec1 = to_bytes(interaction);
    assert_eq!(
        vec1,
        vec![
            2, // Address type
            0, 1, 2, 3, 4, 5, 6, 7, 8, 9, 0, 1, 2, 3, 4, 5, 6, 7, 8, 9, // Address ident
            0, 0, 0, 8, // Payload len
            1, 2, 3, 4, 5, 6, 7, 8, // payload
            1, // Send from sender
            0, // Cost does not exist
            0, // Cost paid by the sender
        ]
    );
}

#[test]
fn interaction_payload_is_shortname_then_arguments() {
    let mut e = EventGroup::builder();
    e.call(DEFAULT_ADDRESS, Shortname::from_u32(300))
        .argument(7u16)
        .done();
    e.ping(DEFAULT_ADDRESS, Some(5));
    let group = e.build();
    let bytes = to_bytes(group);
    let expected: Vec<u8> = [
        vec![0, 0, 0, 0, 0, 2],
        vec![2],
        vec![0; 20],
        vec![0, 0, 0, 4, 0xAC, 0x02, 0, 7],
        vec![0, 0, 0],
        vec![2],
        vec![0; 20],
        vec![0, 0, 0, 0],
        vec![0, 1, 0, 0, 0, 0, 0, 0, 0, 5, 0],
        vec![0],
    ]
    .concat();
    assert_eq!(bytes, expected);
}

#[test]
fn cost_from_contract_flag_is_written_after_the_cost() {
    let mut e = EventGroup::builder();
    e.call(DEFAULT_ADDRESS, Shortname::from_u32(1))
        .with_cost_from_contract(9)
        .done();
    let group = e.build();
    let bytes = to_bytes(group);
    assert_eq!(&bytes[bytes.len() - 11..], &[1, 0, 0, 0, 0, 0, 0, 0, 9, 1, 0]);
}

#[test]
fn callback_payload_and_cost() {
    let mut e = EventGroup::builder();
    e.call(DEFAULT_ADDRESS, Shortname::from_u32(1)).done();
    e.with_callback(ShortnameCallback::from_u32(0x23))
        .argument(0x30u32)
        .with_cost(0x40)
        .done();
    let bytes = to_bytes(e.build());
    assert_eq!(
        &bytes[..14],
        &[1, 0, 0, 0, 5, 0x23, 0, 0, 0, 0x30, 1, 0, 0, 0]
    );
}

#[test]
fn event_group_reads_back() {
    let mut e = EventGroup::builder();
    e.call(DEFAULT_ADDRESS, Shortname::from_u32(9))
        .argument(1u8)
        .with_cost(3)
        .done();
    let bytes = to_bytes(e.build());
    let mut reader: &[u8] = bytes.as_slice();
    let group = EventGroup::rpc_read_from(&mut reader);
    assert!(reader.is_empty());
    assert_eq!(to_bytes(group), bytes);
}
