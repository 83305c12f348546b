use pbc_sdk::address::{Address, AddressType};
use pbc_sdk::events::EventGroup;
use pbc_sdk::shortname::{Shortname, ShortnameCallback};
use pbc_sdk::shortname::ShortnameZkComputation;
use pbc_sdk::sorted_vec_map::entry::Entry;
use pbc_sdk::traits::{ReadWriteState, WriteRPC};
use pbc_sdk::zk::ZkStateChange;
use pbc_sdk::ContractResultBuffer;

fn assert_written<T: ReadWriteState>(state: T, events: Vec<EventGroup>, expected_bytes: &[u8]) {
    let mut gotten_buffer = ContractResultBuffer::new();
    gotten_buffer.write_state(state);
    gotten_buffer.write_events(events);
    assert_eq!(gotten_buffer.data, expected_bytes);
}

fn assert_zk_written(actual: Vec<ZkStateChange>, expected: Vec<u8>) {
    let mut gotten_buffer = ContractResultBuffer::new();
    gotten_buffer.write_zk_state_change(actual);
    assert_eq!(gotten_buffer.data, expected);
}

const EXAMPLE_METADATA: u8 = 5;
const EXAMPLE_INPUTS: [u8; 2] = [1, 2];

#[test]
pub fn empty_result() {
    let state: [u8; 0] = [];
    let events = vec![];
    let expected_bytes = [0, 0, 0, 0];
    assert_written(state, events, &expected_bytes)
}

#[test]
pub fn small_state() {
    let state: u8 = 54;
    let events = vec![];
    let expected_bytes = [
        0, 0, 0, 0, // Empty length
        1, // Section id: State
        0, 0, 0, 1,  // Section len: 1
        54, // State
    ];
    assert_written(state, events, &expected_bytes)
}

#[test]
pub fn large_state() {
    let state = Entry {
        key: Entry { key: 41u8, value: 54u8 },
        value: Entry {
            key: Entry { key: 12u8, value: 21u8 },
            value: 0x220u32,
        },
    };
    let events = vec![];
    let expected_bytes = [
        0, 0, 0, 0, // Empty length
        1, // Section id: State
        0, 0, 0, 8, // Section len: ?
        41, 54, 12, 21, 32, 2, 0, 0, // State
    ];
    assert_written(state, events, &expected_bytes)
}

const STATE_AND_EVENTS_WITH_RETURN_EXPECTED_BYTES: [u8; 38] = [
    0, 0, 0, 0, // Empty length
    // State
    1, // Section id: State
    0, 0, 0, 1,  // Section len: 1
    59, // State data
    // Events
    2, // Section id: Events
    0, 0, 0, 23, // Section len
    0, 0, 0, 1, // #EventGroup
    0, // No callback
    0, // Cost: None
    0, 0, 0, 0, // #Events
    1, // Has return data
    0, 0, 0, 8, // Return data length
    0, 0, 0, 0, 0, 0, 0, 42, // Return data itself
];

#[test]
pub fn state_and_events_builder_with_return() {
    let mut builder = EventGroup::builder();
    builder.return_data(42u64);
    let event_group = builder.build();

    assert_eq!(format!("{:?}", event_group), format!("{:?}", event_group));

    let events = vec![event_group];
    assert_written(59u8, events, &STATE_AND_EVENTS_WITH_RETURN_EXPECTED_BYTES)
}

#[test]
fn start_computation() {
    let state_changes = vec![ZkStateChange::start_computation::<u8>(
        ShortnameZkComputation::from_u32(0x35),
        vec![EXAMPLE_METADATA],
    )];
    let expected_bytes = vec![
        0, 0, 0, 0,  // Empty length
        17, // Zk state change section id
        0, 0, 0, 22, // Zk state section length
        0, 0, 0, 1, // Number of state changes
        9, // Discriminant: Start computation with shortname
        0, 0, 0, 0x35, // Shortname
        0, 0, 0, 1, // Number of pieces of metadata
        0, 0, 0, 1, // Size of metadata
        5, // Metadata
        0, 0, 0, 0, // Number of input arguments
    ];
    assert_zk_written(state_changes, expected_bytes);
}

#[test]
fn start_computation_with_inputs() {
    let state_changes = vec![ZkStateChange::start_computation_with_inputs::<u8, u8>(
        ShortnameZkComputation::from_u32(0x35),
        vec![EXAMPLE_METADATA],
        EXAMPLE_INPUTS.to_vec(),
    )];
    let expected_bytes = vec![
        0, 0, 0, 0,  // Empty length
        17, // Zk state change section id
        0, 0, 0, 32, // Zk state section length
        0, 0, 0, 1, // Number of state changes
        9, // Discriminant: Start computation with shortname
        0, 0, 0, 0x35, // Shortname
        0, 0, 0, 1, // Number of pieces of metadata
        0, 0, 0, 1, // Size of metadata
        5, // Metadata
        0, 0, 0, 2, // Number of input arguments
        0, 0, 0, 1, // Size of input 1
        1, // Input 1
        0, 0, 0, 1, // Size of input 2
        2, // Input 1
    ];
    assert_zk_written(state_changes, expected_bytes);
}

#[test]
#[allow(deprecated)]
fn using_output_complete_panics() {
    let state_changes = vec![ZkStateChange::OutputComplete {}];
    let expected_bytes = vec![
        0, 0, 0, 0,  // Empty length
        17, // Zk state change section id
        0, 0, 0, 9, // Zk state section length
        0, 0, 0, 1, // Number of state changes
        3, // Discriminant: Delete variables
        0, 0, 0, 0, // Number to delete
    ];
    assert_zk_written(state_changes, expected_bytes);
}

#[test]
fn serialize_start_computation() {
    let change = ZkStateChange::StartComputation {
        function_shortname: ShortnameZkComputation::from_u32(61),
        output_variable_metadata: vec![],
        input_arguments: vec![],
    };

    let expected = vec![
        9, // Start computation
        0, 0, 0, 61, // Shortname as u32
        0, 0, 0, 0, // No metadata
        0, 0, 0, 0, // No inputs
    ];

    let mut buffer = vec![];
    change.rpc_write_to(&mut buffer);
    assert_eq!(buffer, expected);
}

#[test]
fn finalize_writes_length_of_sections() {
    let mut buffer = ContractResultBuffer::new();
    buffer.write_state(7u16);
    let bytes = buffer.finalize_result_buffer();
    assert_eq!(bytes, vec![0, 0, 0, 7, 1, 0, 0, 0, 2, 7, 0]);
}

#[test]
fn other_state_changes_bytes() {
    let mut buffer = vec![];
    ZkStateChange::ContractDone.rpc_write_to(&mut buffer);
    ZkStateChange::DeleteVariable { variable: pbc_sdk::zk::SecretVarId::new(2) }
        .rpc_write_to(&mut buffer);
    ZkStateChange::Attest { data_to_attest: vec![9] }.rpc_write_to(&mut buffer);
    assert_eq!(buffer, vec![6, 3, 0, 0, 0, 1, 0, 0, 0, 2, 7, 0, 0, 0, 1, 9]);
}

const ADDRESS_1: Address = Address {
    address_type: AddressType::ZkContract,
    identifier: [0, 1, 2, 3, 4, 5, 6, 7, 8, 9, 0, 1, 2, 3, 4, 5, 6, 7, 8, 9],
};

const STATE_AND_EVENTS_SMALL_STATE: u8 = 59;

const STATE_AND_EVENTS_EXPECTED_BYTES: [u8; 66] = [
    0, 0, 0, 0, // Empty length
    // State
    1, // Section id: State
    0, 0, 0, 1,  // Section len: 1
    59, // State data
    // Events
    2, // Section id: Events
    0, 0, 0, 51, // Section len
    0, 0, 0, 1, // #EventGroup
    0, // No callback
    0, // Cost: None
    0, 0, 0, 1, // #Events
    3, 0, 1, 2, 3, 4, 5, 6, 7, 8, 9, 0, 1, 2, 3, 4, 5, 6, 7, 8, 9, // Event address
    0, 0, 0, 4, 65, 66, 67, 99, // Event payload
    0,  // From original sender?: no
    1, 0, 0, 0, 0, 0, 0, 0, 0x20, // cost: Some(0x20)
    0,    // Cost from user
    0,    // No return data
];

#[test]
pub fn state_and_events_builder() {
    let mut e = EventGroup::builder();
    e.call(ADDRESS_1, Shortname::from_be_bytes(&[65]).unwrap())
        .argument(66u8)
        .argument(67u8)
        .argument(99u8)
        .with_cost(0x20)
        .done();

    let events = vec![e.build()];
    assert_written(
        STATE_AND_EVENTS_SMALL_STATE,
        events,
        &STATE_AND_EVENTS_EXPECTED_BYTES,
    )
}

#[test]
pub fn state_and_events_builder_cost_from_contract() {
    let mut e = EventGroup::builder();
    e.call(ADDRESS_1, Shortname::from_be_bytes(&[65]).unwrap())
        .argument(66u8)
        .argument(67u8)
        .argument(99u8)
        .with_cost_from_contract(0x20)
        .done();

    let events = vec![e.build()];
    let mut expected = STATE_AND_EVENTS_EXPECTED_BYTES;
    expected[64] = 1; // Cost from contract

    assert_written(STATE_AND_EVENTS_SMALL_STATE, events, &expected)
}

const STATE_AND_EVENTS_WITH_CALLBACK_EXPECTED_BYTES: [u8; 83] = [
    0, 0, 0, 0, // Empty length
    // State
    1, // Section id: State
    0, 0, 0, 1,  // Section len: 1
    59, // State data
    // Events
    2, // Section id: Events
    0, 0, 0, 68, // Section len
    0, 0, 0, 1, // #EventGroup
    1, 0, 0, 0, 5, 0x23, 0, 0, 0, 0x30, 1, 0, 0, 0, // Callback
    0, 0, 0, 0, 0x40, // Cost: 64
    0, 0, 0, 1, // #Events
    3, 0, 1, 2, 3, 4, 5, 6, 7, 8, 9, 0, 1, 2, 3, 4, 5, 6, 7, 8, 9, // Event address
    0, 0, 0, 4, 65, 66, 67, 99, // Event payload
    0,  // From original sender?: no
    1, 0, 0, 0, 0, 0, 0, 0, 0x20, // cost: Some(0x20)
    0,    // Cost from user
    0,    // No return data
];

#[test]
pub fn state_and_events_builder_with_callback() {
    let mut e = EventGroup::builder();
    e.call(ADDRESS_1, Shortname::from_be_bytes(&[65]).unwrap())
        .argument(66u8)
        .argument(67u8)
        .argument(99u8)
        .with_cost(0x20)
        .done();

    e.with_callback(ShortnameCallback::from_u32(0x23))
        .argument(0x30)
        .with_cost(0x40)
        .done();

    let events = vec![e.build()];
    assert_written(
        STATE_AND_EVENTS_SMALL_STATE,
        events,
        &STATE_AND_EVENTS_WITH_CALLBACK_EXPECTED_BYTES,
    )
}
