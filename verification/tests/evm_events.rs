use pbc_sdk::primitives::U256;
use pbc_sdk::traits::{ReadRPC, ReadWriteState, WriteRPC};
use pbc_sdk::zk::evm_event::{EventSubscription, EvmEventFilter, ExternalEvent};

fn subscription_bytes() -> Vec<u8> {
    let mut bytes: Vec<u8> = vec![0, 0, 0, 1, 1, 0, 0, 0, 7];
    bytes.extend_from_slice(b"POLYGON");
    bytes.extend_from_slice(&[0xaa; 20]);
    bytes.extend_from_slice(&[0x01; 32]);
    bytes.extend_from_slice(&[0, 0, 0, 2]);
    bytes.extend_from_slice(&[0, 0, 0, 1]);
    bytes.extend_from_slice(&[0x05; 32]);
    bytes.extend_from_slice(&[0, 0, 0, 0]);
    bytes
}

#[test]
fn event_subscription_rpc_roundtrip() {
    let bytes = subscription_bytes();
    let mut reader: &[u8] = &bytes;
    let sub = EventSubscription::rpc_read_from(&mut reader);
    assert!(reader.is_empty());
    assert!(sub.is_active);
    assert_eq!(sub.chain_id, "POLYGON");
    assert_eq!(sub.contract_address, [0xaa; 20]);
    assert_eq!(sub.from_block, U256 { bytes: [0x01; 32] });
    assert_eq!(sub.topics, vec![vec![[0x05; 32]], vec![]]);
    let mut out: Vec<u8> = Vec::new();
    sub.rpc_write_to(&mut out);
    assert_eq!(out, bytes);
}

#[test]
fn external_event_rpc_roundtrip() {
    let mut bytes: Vec<u8> = vec![0, 0, 0, 1, 0, 0, 0, 2, 0, 0, 0, 3, 9, 8, 7, 0, 0, 0, 1];
    bytes.extend_from_slice(&[0x42; 32]);
    let mut reader: &[u8] = &bytes;
    let event = ExternalEvent::rpc_read_from(&mut reader);
    assert!(reader.is_empty());
    assert_eq!(event.data, vec![9, 8, 7]);
    assert_eq!(event.topics, vec![[0x42; 32]]);
    let mut out: Vec<u8> = Vec::new();
    event.rpc_write_to(&mut out);
    assert_eq!(out, bytes);
}

#[test]
fn evm_event_filter_formats() {
    let mut block = [0u8; 32];
    block[0] = 5;
    let filter = EvmEventFilter::builder([3; 20])
        .filter_from_block(U256 { bytes: block })
        .exact_match([7; 32])
        .any_match()
        .build();

    let mut rpc: Vec<u8> = Vec::new();
    filter.rpc_write_to(&mut rpc);
    assert_eq!(&rpc[..20], &[3; 20]);
    assert_eq!(rpc[51], 5);
    let mut reader: &[u8] = &rpc;
    assert_eq!(EvmEventFilter::rpc_read_from(&mut reader), filter);
    assert!(reader.is_empty());

    let mut state: Vec<u8> = Vec::new();
    filter.state_write_to(&mut state);
    assert_eq!(state[20], 5);
    assert_eq!(&state[52..56], &[2, 0, 0, 0]);
    let mut reader: &[u8] = &state;
    assert_eq!(EvmEventFilter::state_read_from(&mut reader), filter);
    assert!(reader.is_empty());
}
