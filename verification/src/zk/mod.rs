//! Zero-knowledge contracts: secret variables, their inputs, attestations, and
//! the changes a contract asks of the zero-knowledge state.
use core::marker::PhantomData;
use vstd::prelude::*;

pub mod evm_event;

use crate::address::{Address, AddressType};
use crate::avl_tree_map::AvlTreeMap;
use crate::primitives::Signature;
use crate::shortname::ShortnameZkComputation;
use crate::traits::{be_bytes, ReadRPC, ReadWriteState, RpcRoundtrip, StateCanonical, WriteRPC};
use crate::traits::vec::state_concat;
use crate::wasm_avl::AvlStore;
use evm_event::{
    EventSubscription, EventSubscriptionId, EvmChainId, EvmEventFilter, ExternalEvent,
    ExternalEventId,
};

/// Secret values, by the shorter name.
pub use self::SecretBinary as Secret;

verus! {

/// The id of a secret variable.
#[derive(PartialEq, Eq, Structural, Debug, Clone, Copy, Hash)]
#[non_exhaustive]
pub struct SecretVarId {
    /// The raw id.
    pub raw_id: u32,
}

impl SecretVarId {
    /// Creates a variable id from its raw id.
    pub fn new(raw_id: u32) -> (res: Self)
        ensures
            res.raw_id == raw_id,
    {
        Self { raw_id }
    }
}

/// The id of a data attestation.
#[derive(PartialEq, Eq, Structural, Debug, Clone, Copy)]
#[non_exhaustive]
pub struct AttestationId {
    raw_id: u32,
}

impl AttestationId {
    /// Creates an attestation id from its raw id.
    pub(crate) fn new(raw_id: u32) -> (res: Self)
        ensures
            res.deep_view() == raw_id,
    {
        Self { raw_id }
    }
}

/// Data attested by the nodes of the zero-knowledge contract.
#[derive(Debug)]
#[non_exhaustive]
pub struct DataAttestation {
    /// The id of the attestation.
    pub attestation_id: AttestationId,
    /// The nodes' signatures, where given.
    pub signatures: Vec<Option<Signature>>,
    /// The attested data.
    pub data: Vec<u8>,
}

/// The view of an attestation: its id, the signatures, the data.
pub type DataAttestationView = (u32, Seq<Option<(u8, Seq<u8>, Seq<u8>)>>, Seq<u8>);

impl DeepView for DataAttestation {
    type V = DataAttestationView;

    open spec fn deep_view(&self) -> DataAttestationView {
        (self.attestation_id.deep_view(), self.signatures.deep_view(), self.data@)
    }
}

impl ReadWriteState for DataAttestation {
    open spec fn state_bytes(&self) -> Seq<u8> {
        self.attestation_id.state_bytes() + self.signatures.state_bytes() + self.data.state_bytes()
    }

    open spec fn state_representable(&self) -> bool {
        self.signatures.state_representable() && self.data.state_representable()
    }

    open spec fn state_parse(data: Seq<u8>) -> Option<(DataAttestationView, nat)> {
        match <AttestationId as ReadWriteState>::state_parse(data) {
            None => None,
            Some((id, n1)) => match <Vec<Option<Signature>> as ReadWriteState>::state_parse(
                data.skip(n1 as int),
            ) {
                None => None,
                Some((sigs, n2)) => match <Vec<u8> as ReadWriteState>::state_parse(
                    data.skip((n1 + n2) as int),
                ) {
                    None => None,
                    Some((d, n3)) => Some(((id, sigs, d), n1 + n2 + n3)),
                },
            },
        }
    }

    fn state_read_from(reader: &mut &[u8]) -> (res: Self) {
        let ghost d0 = reader@;
        let attestation_id = <AttestationId as ReadWriteState>::state_read_from(reader);
        let ghost d1 = reader@;
        let signatures = <Vec<Option<Signature>> as ReadWriteState>::state_read_from(reader);
        let ghost d2 = reader@;
        let ghost n2 = <Vec<Option<Signature>> as ReadWriteState>::state_parse(d1)->Some_0.1;
        assert(d2 =~= d0.skip((4 + n2) as int));
        let data = <Vec<u8> as ReadWriteState>::state_read_from(reader);
        proof {
            let n3 = <Vec<u8> as ReadWriteState>::state_parse(d2)->Some_0.1;
            assert(reader@ =~= d0.skip((4 + n2 + n3) as int));
            assert(data.deep_view() =~= data@);
        }
        DataAttestation { attestation_id, signatures, data }
    }

    fn state_write_to(&self, writer: &mut Vec<u8>) {
        self.attestation_id.state_write_to(writer);
        self.signatures.state_write_to(writer);
        self.data.state_write_to(writer);
        assert(writer@ =~= old(writer)@ + self.state_bytes());
    }

    proof fn lemma_state_roundtrip(&self, rest: Seq<u8>) {
        let a = self.attestation_id.state_bytes();
        let s = self.signatures.state_bytes();
        let d = self.data.state_bytes();
        assert(a + s + d + rest =~= a + (s + (d + rest)));
        self.attestation_id.lemma_state_roundtrip(s + (d + rest));
        assert((a + (s + (d + rest))).skip(a.len() as int) =~= s + (d + rest));
        self.signatures.lemma_state_roundtrip(d + rest);
        assert((a + (s + (d + rest))).skip((a.len() + s.len()) as int) =~= d + rest);
        self.data.lemma_state_roundtrip(rest);
        assert(self.data.deep_view() =~= self.data@);
    }
}

/// The status of the contract's zero-knowledge computation.
#[derive(Debug, PartialEq, Eq, Structural, Clone, Copy)]
pub enum CalculationStatus {
    /// No computation is running.
    Waiting,
    /// A computation is running.
    Calculating,
    /// Outputs of a computation are being handled; no longer occurs.
    Output,
    /// Malicious behaviour was detected.
    MaliciousBehaviour,
    /// The contract is done.
    Done,
}

/// The byte of a calculation status.
pub open spec fn calculation_status_byte(s: CalculationStatus) -> u8 {
    match s {
        CalculationStatus::Waiting => 0,
        CalculationStatus::Calculating => 1,
        CalculationStatus::Output => 2,
        CalculationStatus::MaliciousBehaviour => 3,
        CalculationStatus::Done => 4,
    }
}

/// The calculation status of a byte, if any.
pub open spec fn calculation_status_of_byte(b: u8) -> Option<CalculationStatus> {
    if b == 0 {
        Some(CalculationStatus::Waiting)
    } else if b == 1 {
        Some(CalculationStatus::Calculating)
    } else if b == 2 {
        Some(CalculationStatus::Output)
    } else if b == 3 {
        Some(CalculationStatus::MaliciousBehaviour)
    } else if b == 4 {
        Some(CalculationStatus::Done)
    } else {
        None
    }
}

impl DeepView for CalculationStatus {
    type V = CalculationStatus;

    open spec fn deep_view(&self) -> CalculationStatus {
        *self
    }
}

impl ReadRPC for CalculationStatus {
    open spec fn rpc_parse(data: Seq<u8>) -> Option<(CalculationStatus, nat)> {
        if data.len() >= 1 && calculation_status_of_byte(data[0]) is Some {
            Some((calculation_status_of_byte(data[0])->Some_0, 1))
        } else {
            None
        }
    }

    fn rpc_read_from(reader: &mut &[u8]) -> (res: Self) {
        let b = crate::traits::read_uint_le(reader, 1);
        assert(old(reader)@.take(1).drop_first().len() == 0);
        assert(crate::traits::le_value(old(reader)@.take(1).drop_first()) == 0);
        if b == 0 {
            CalculationStatus::Waiting
        } else if b == 1 {
            CalculationStatus::Calculating
        } else if b == 2 {
            CalculationStatus::Output
        } else if b == 3 {
            CalculationStatus::MaliciousBehaviour
        } else {
            CalculationStatus::Done
        }
    }
}

impl WriteRPC for CalculationStatus {
    open spec fn rpc_bytes(&self) -> Seq<u8> {
        seq![calculation_status_byte(*self)]
    }

    open spec fn rpc_representable(&self) -> bool {
        true
    }

    fn rpc_write_to(&self, writer: &mut Vec<u8>) {
        let b: u8 = match self {
            CalculationStatus::Waiting => 0,
            CalculationStatus::Calculating => 1,
            CalculationStatus::Output => 2,
            CalculationStatus::MaliciousBehaviour => 3,
            CalculationStatus::Done => 4,
        };
        writer.push(b);
    }
}

impl RpcRoundtrip for CalculationStatus {
    proof fn lemma_rpc_roundtrip(&self, rest: Seq<u8>) {
        assert((seq![calculation_status_byte(*self)] + rest)[0] == calculation_status_byte(*self));
    }
}

/// A secret variable of the contract: its id, owner, whether it is sealed, its
/// public metadata, and its value where it has been opened.
#[derive(Debug)]
#[non_exhaustive]
pub struct ZkClosed<MetadataT> {
    /// The id of the variable.
    pub variable_id: SecretVarId,
    /// The owner of the variable.
    pub owner: Address,
    /// Whether the variable is sealed.
    pub is_sealed: bool,
    /// The public metadata of the variable.
    pub metadata: MetadataT,
    /// The opened value, in the State format, where the variable has been opened.
    pub data: Option<Vec<u8>>,
}

/// The view of a secret variable.
pub type ZkClosedView<M> = (u32, (AddressType, Seq<u8>), bool, M, Option<Seq<u8>>);

impl<MetadataT: DeepView> DeepView for ZkClosed<MetadataT> {
    type V = ZkClosedView<MetadataT::V>;

    open spec fn deep_view(&self) -> ZkClosedView<MetadataT::V> {
        (
            self.variable_id.raw_id,
            self.owner.deep_view(),
            self.is_sealed,
            self.metadata.deep_view(),
            match self.data {
                None => None,
                Some(d) => Some(d@),
            },
        )
    }
}

impl<MetadataT: ReadWriteState> ReadWriteState for ZkClosed<MetadataT> {
    open spec fn state_bytes(&self) -> Seq<u8> {
        self.variable_id.state_bytes() + self.owner.state_bytes() + self.is_sealed.state_bytes()
            + self.metadata.state_bytes() + self.data.state_bytes()
    }

    open spec fn state_representable(&self) -> bool {
        self.metadata.state_representable() && self.data.state_representable()
    }

    open spec fn state_parse(data: Seq<u8>) -> Option<(ZkClosedView<MetadataT::V>, nat)> {
        match <SecretVarId as ReadWriteState>::state_parse(data) {
            None => None,
            Some((id, n1)) => match <Address as ReadWriteState>::state_parse(data.skip(n1 as int)) {
                None => None,
                Some((owner, n2)) => match <bool as ReadWriteState>::state_parse(
                    data.skip((n1 + n2) as int),
                ) {
                    None => None,
                    Some((sealed, n3)) => match MetadataT::state_parse(
                        data.skip((n1 + n2 + n3) as int),
                    ) {
                        None => None,
                        Some((m, n4)) => match <Option<Vec<u8>> as ReadWriteState>::state_parse(
                            data.skip((n1 + n2 + n3 + n4) as int),
                        ) {
                            None => None,
                            Some((d, n5)) => Some(
                                ((id, owner, sealed, m, d), n1 + n2 + n3 + n4 + n5),
                            ),
                        },
                    },
                },
            },
        }
    }

    fn state_read_from(reader: &mut &[u8]) -> (res: Self) {
        let ghost d0 = reader@;
        let variable_id = <SecretVarId as ReadWriteState>::state_read_from(reader);
        let owner = <Address as ReadWriteState>::state_read_from(reader);
        assert(d0.skip(4).skip(21) =~= d0.skip(25));
        let is_sealed = <bool as ReadWriteState>::state_read_from(reader);
        let ghost d3 = reader@;
        assert(d3 =~= d0.skip(26));
        let metadata = MetadataT::state_read_from(reader);
        let ghost d4 = reader@;
        let ghost n4 = MetadataT::state_parse(d3)->Some_0.1;
        assert(d4 =~= d0.skip((26 + n4) as int));
        let data = <Option<Vec<u8>> as ReadWriteState>::state_read_from(reader);
        proof {
            let n5 = <Option<Vec<u8>> as ReadWriteState>::state_parse(d4)->Some_0.1;
            assert(reader@ =~= d0.skip((26 + n4 + n5) as int));
            if data is Some {
                assert(data->Some_0.deep_view() =~= data->Some_0@);
            }
        }
        ZkClosed { variable_id, owner, is_sealed, metadata, data }
    }

    fn state_write_to(&self, writer: &mut Vec<u8>) {
        self.variable_id.state_write_to(writer);
        self.owner.state_write_to(writer);
        self.is_sealed.state_write_to(writer);
        self.metadata.state_write_to(writer);
        self.data.state_write_to(writer);
        assert(writer@ =~= old(writer)@ + self.state_bytes());
    }

    proof fn lemma_state_roundtrip(&self, rest: Seq<u8>) {
        let a = self.variable_id.state_bytes();
        let b = self.owner.state_bytes();
        let c = self.is_sealed.state_bytes();
        let m = self.metadata.state_bytes();
        let d = self.data.state_bytes();
        let all = a + b + c + m + d + rest;
        assert(all =~= a + (b + (c + (m + (d + rest)))));
        self.variable_id.lemma_state_roundtrip(b + (c + (m + (d + rest))));
        assert(all.skip(a.len() as int) =~= b + (c + (m + (d + rest))));
        self.owner.lemma_state_roundtrip(c + (m + (d + rest)));
        assert(all.skip((a.len() + b.len()) as int) =~= c + (m + (d + rest)));
        self.is_sealed.lemma_state_roundtrip(m + (d + rest));
        assert(all.skip((a.len() + b.len() + c.len()) as int) =~= m + (d + rest));
        self.metadata.lemma_state_roundtrip(d + rest);
        assert(all.skip((a.len() + b.len() + c.len() + m.len()) as int) =~= d + rest);
        self.data.lemma_state_roundtrip(rest);
        if self.data is Some {
            assert(self.data->Some_0.deep_view() =~= self.data->Some_0@);
        }
    }
}

impl<MetadataT> ZkClosed<MetadataT> {
    /// The opened value, read as a `T` in the State format; `None` where the
    /// variable has not been opened.
    pub fn open_value<T: ReadWriteState>(&self) -> (res: Option<T>)
        requires
            self.data matches Some(d) ==> T::state_parse(d@) is Some,
        ensures
            self.data is None ==> res is None,
            self.data matches Some(d) ==> (res matches Some(v) && v.deep_view() == T::state_parse(
                d@,
            )->Some_0.0),
    {
        match &self.data {
            None => None,
            Some(buffer) => {
                let mut reader = buffer.as_slice();
                Some(T::state_read_from(&mut reader))
            },
        }
    }
}

/// The zero-knowledge state of a contract: the status of the computation, and
/// the trees of its inputs, variables, attestations and EVM events.
#[derive(Debug)]
#[non_exhaustive]
pub struct ZkState<SecretVarMetadataT> {
    /// The status of the computation.
    pub calculation_state: CalculationStatus,
    /// The inputs that are not yet confirmed.
    pub pending_inputs: AvlTreeMap<SecretVarId, ZkClosed<SecretVarMetadataT>>,
    /// The secret variables.
    pub secret_variables: AvlTreeMap<SecretVarId, ZkClosed<SecretVarMetadataT>>,
    /// The data attestations.
    pub data_attestations: AvlTreeMap<AttestationId, DataAttestation>,
    /// The subscriptions to EVM events.
    pub event_subscriptions: AvlTreeMap<EventSubscriptionId, EventSubscription>,
    /// The EVM events that arrived.
    pub external_events: AvlTreeMap<ExternalEventId, ExternalEvent>,
}

impl<M> DeepView for ZkState<M> {
    type V = (CalculationStatus, i32, i32, i32, i32, i32);

    open spec fn deep_view(&self) -> (CalculationStatus, i32, i32, i32, i32, i32) {
        (
            self.calculation_state,
            self.pending_inputs@,
            self.secret_variables@,
            self.data_attestations@,
            self.event_subscriptions@,
            self.external_events@,
        )
    }
}

impl<M> ReadRPC for ZkState<M> {
    /// The status byte, then the ids of the five trees, 4 bytes little-endian each.
    open spec fn rpc_parse(data: Seq<u8>) -> Option<((CalculationStatus, i32, i32, i32, i32, i32), nat)> {
        if data.len() >= 21 && calculation_status_of_byte(data[0]) is Some {
            Some(
                (
                    (
                        calculation_status_of_byte(data[0])->Some_0,
                        <i32 as ReadWriteState>::state_parse(data.subrange(1, 5))->Some_0.0,
                        <i32 as ReadWriteState>::state_parse(data.subrange(5, 9))->Some_0.0,
                        <i32 as ReadWriteState>::state_parse(data.subrange(9, 13))->Some_0.0,
                        <i32 as ReadWriteState>::state_parse(data.subrange(13, 17))->Some_0.0,
                        <i32 as ReadWriteState>::state_parse(data.subrange(17, 21))->Some_0.0,
                    ),
                    21,
                ),
            )
        } else {
            None
        }
    }

    fn rpc_read_from(reader: &mut &[u8]) -> (res: Self) {
        let ghost d = reader@;
        let calculation_state = CalculationStatus::rpc_read_from(reader);
        assert(d.skip(1).take(4) =~= d.subrange(1, 5).take(4));
        let pending_inputs = <AvlTreeMap<SecretVarId, ZkClosed<M>> as ReadWriteState>::state_read_from(reader);
        assert(d.skip(1).skip(4) =~= d.skip(5));
        assert(d.skip(5).take(4) =~= d.subrange(5, 9).take(4));
        let secret_variables = <AvlTreeMap<SecretVarId, ZkClosed<M>> as ReadWriteState>::state_read_from(reader);
        assert(d.skip(5).skip(4) =~= d.skip(9));
        assert(d.skip(9).take(4) =~= d.subrange(9, 13).take(4));
        let data_attestations = <AvlTreeMap<AttestationId, DataAttestation> as ReadWriteState>::state_read_from(reader);
        assert(d.skip(9).skip(4) =~= d.skip(13));
        assert(d.skip(13).take(4) =~= d.subrange(13, 17).take(4));
        let event_subscriptions = <AvlTreeMap<EventSubscriptionId, EventSubscription> as ReadWriteState>::state_read_from(reader);
        assert(d.skip(13).skip(4) =~= d.skip(17));
        assert(d.skip(17).take(4) =~= d.subrange(17, 21).take(4));
        let external_events = <AvlTreeMap<ExternalEventId, ExternalEvent> as ReadWriteState>::state_read_from(reader);
        assert(d.skip(17).skip(4) =~= d.skip(21));
        ZkState {
            calculation_state,
            pending_inputs,
            secret_variables,
            data_attestations,
            event_subscriptions,
            external_events,
        }
    }
}

impl<M: ReadWriteState> ZkState<M> {
    /// The pending input of the given id, if any.
    pub fn get_pending_input(&self, store: &AvlStore, id: SecretVarId) -> (res: Option<ZkClosed<M>>)
        requires
            store.wf(),
            store@.contains_key(self.pending_inputs@),
            store@[self.pending_inputs@].contains_key(id.state_bytes()) ==> ZkClosed::<M>::state_parse(
                store@[self.pending_inputs@][id.state_bytes()],
            ) is Some,
        ensures
            !store@[self.pending_inputs@].contains_key(id.state_bytes()) ==> res is None,
            store@[self.pending_inputs@].contains_key(id.state_bytes()) ==> {
                let vb = store@[self.pending_inputs@][id.state_bytes()];
                &&& vb.len() == crate::wasm_avl::absent_size() ==> res is None
                &&& vb.len() != crate::wasm_avl::absent_size() ==> (res matches Some(v)
                    && v.deep_view() == ZkClosed::<M>::state_parse(vb)->Some_0.0)
            },
    {
        self.pending_inputs.get(store, &id)
    }

    /// The secret variable of the given id, if any.
    pub fn get_variable(&self, store: &AvlStore, id: SecretVarId) -> (res: Option<ZkClosed<M>>)
        requires
            store.wf(),
            store@.contains_key(self.secret_variables@),
            store@[self.secret_variables@].contains_key(id.state_bytes()) ==> ZkClosed::<M>::state_parse(
                store@[self.secret_variables@][id.state_bytes()],
            ) is Some,
        ensures
            !store@[self.secret_variables@].contains_key(id.state_bytes()) ==> res is None,
            store@[self.secret_variables@].contains_key(id.state_bytes()) ==> {
                let vb = store@[self.secret_variables@][id.state_bytes()];
                &&& vb.len() == crate::wasm_avl::absent_size() ==> res is None
                &&& vb.len() != crate::wasm_avl::absent_size() ==> (res matches Some(v)
                    && v.deep_view() == ZkClosed::<M>::state_parse(vb)->Some_0.0)
            },
    {
        self.secret_variables.get(store, &id)
    }

    /// The data attestation of the given id, if any.
    pub fn get_attestation(&self, store: &AvlStore, attestation_id: AttestationId) -> (res: Option<
        DataAttestation,
    >)
        requires
            store.wf(),
            store@.contains_key(self.data_attestations@),
            store@[self.data_attestations@].contains_key(attestation_id.state_bytes())
                ==> DataAttestation::state_parse(
                store@[self.data_attestations@][attestation_id.state_bytes()],
            ) is Some,
        ensures
            !store@[self.data_attestations@].contains_key(attestation_id.state_bytes()) ==> res is None,
            store@[self.data_attestations@].contains_key(attestation_id.state_bytes()) ==> {
                let vb = store@[self.data_attestations@][attestation_id.state_bytes()];
                &&& vb.len() == crate::wasm_avl::absent_size() ==> res is None
                &&& vb.len() != crate::wasm_avl::absent_size() ==> (res matches Some(v)
                    && v.deep_view() == DataAttestation::state_parse(vb)->Some_0.0)
            },
    {
        self.data_attestations.get(store, &attestation_id)
    }
}

/// Secret values, written like their public counterparts in the state format.
pub trait SecretBinary: ReadWriteState {
    /// Reads a secret value.
    fn secret_read_from(reader: &mut &[u8]) -> (res: Self)
        requires
            Self::state_parse(old(reader)@) is Some,
        ensures
            res.deep_view() == Self::state_parse(old(reader)@)->Some_0.0,
            Self::state_parse(old(reader)@)->Some_0.1 <= old(reader)@.len(),
            final(reader)@ == old(reader)@.skip(
                Self::state_parse(old(reader)@)->Some_0.1 as int,
            ),
    ;

    /// Writes a secret value.
    fn secret_write_to(&self, writer: &mut Vec<u8>)
        ensures
            final(writer)@ == old(writer)@ + self.state_bytes(),
    ;
}

impl<T: ReadWriteState> SecretBinary for T {
    fn secret_read_from(reader: &mut &[u8]) -> (res: Self) {
        Self::state_read_from(reader)
    }

    fn secret_write_to(&self, writer: &mut Vec<u8>) {
        self.state_write_to(writer)
    }
}

/// Secret types of a fixed size in bits.
pub trait SecretBinaryFixedSize {
    /// The number of bits.
    spec fn spec_bits() -> u32;

    /// The number of bits.
    fn bits() -> (res: u32)
        ensures
            res == Self::spec_bits(),
    ;
}

impl SecretBinaryFixedSize for bool {
    open spec fn spec_bits() -> u32 {
        1
    }

    fn bits() -> (res: u32) {
        1
    }
}

impl SecretBinaryFixedSize for i8 {
    open spec fn spec_bits() -> u32 {
        8
    }

    fn bits() -> (res: u32) {
        8
    }
}

impl SecretBinaryFixedSize for i16 {
    open spec fn spec_bits() -> u32 {
        16
    }

    fn bits() -> (res: u32) {
        16
    }
}

impl SecretBinaryFixedSize for i32 {
    open spec fn spec_bits() -> u32 {
        32
    }

    fn bits() -> (res: u32) {
        32
    }
}

impl SecretBinaryFixedSize for i64 {
    open spec fn spec_bits() -> u32 {
        64
    }

    fn bits() -> (res: u32) {
        64
    }
}

impl SecretBinaryFixedSize for i128 {
    open spec fn spec_bits() -> u32 {
        128
    }

    fn bits() -> (res: u32) {
        128
    }
}

/// The definition of a secret input: whether it is sealed, and its public
/// metadata.
#[derive(Debug)]
pub struct ZkInputDef<MetadataT, SecretT> {
    seal: bool,
    metadata: MetadataT,
    secret_type: PhantomData<SecretT>,
}

impl<MetadataT, SecretT> View for ZkInputDef<MetadataT, SecretT> {
    type V = (bool, MetadataT);

    /// Whether the input is sealed, and its metadata.
    closed spec fn view(&self) -> (bool, MetadataT) {
        (self.seal, self.metadata)
    }
}

impl<MetadataT, SecretT> ZkInputDef<MetadataT, SecretT> {
    /// An unsealed input with the given metadata.
    pub fn with_metadata(metadata: MetadataT) -> (res: Self)
        ensures
            res@ == (false, metadata),
    {
        Self { seal: false, metadata, secret_type: PhantomData }
    }
}

impl<MetadataT: ReadWriteState, SecretT: SecretBinaryFixedSize> WriteRPC for ZkInputDef<
    MetadataT,
    SecretT,
> {
    /// The bit lengths of the secret (one of them), whether it is sealed, and the
    /// metadata in the State format.
    open spec fn rpc_bytes(&self) -> Seq<u8> {
        be_bytes(1, 4) + be_bytes(SecretT::spec_bits() as nat, 4) + self@.0.rpc_bytes()
            + self@.1.state_bytes()
    }

    open spec fn rpc_representable(&self) -> bool {
        true
    }

    fn rpc_write_to(&self, writer: &mut Vec<u8>) {
        let bits: Vec<u32> = vec![SecretT::bits()];
        bits.rpc_write_to(writer);
        proof {
            reveal_with_fuel(crate::traits::vec::rpc_concat, 2);
            assert(bits@.drop_first() =~= Seq::<u32>::empty());
        }
        self.seal.rpc_write_to(writer);
        self.metadata.state_write_to(writer);
        assert(writer@ =~= old(writer)@ + self.rpc_bytes());
    }
}

/// A change that a contract asks of its zero-knowledge state.
#[derive(Debug)]
pub enum ZkStateChange {
    /// Starts a computation: the function to run, the metadata of each output
    /// variable and the arguments, each in the State format.
    StartComputation {
        /// The function to run.
        function_shortname: ShortnameZkComputation,
        /// The metadata of each output variable, in the State format.
        output_variable_metadata: Vec<Vec<u8>>,
        /// The arguments, in the State format.
        input_arguments: Vec<Vec<u8>>,
    },
    /// Deletes a pending input.
    DeletePendingInput {
        /// The input to delete.
        variable: SecretVarId,
    },
    /// Transfers a variable to a new owner.
    TransferVariable {
        /// The variable to transfer.
        variable: SecretVarId,
        /// The new owner.
        new_owner: Address,
    },
    /// Deletes a variable.
    DeleteVariable {
        /// The variable to delete.
        variable: SecretVarId,
    },
    /// Deletes variables.
    DeleteVariables {
        /// The variables to delete.
        variables_to_delete: Vec<SecretVarId>,
    },
    /// Opens variables.
    OpenVariables {
        /// The variables to open.
        variables: Vec<SecretVarId>,
    },
    /// Not supported any longer: written as deleting no variables.
    OutputComplete {},
    /// Marks the contract as done.
    ContractDone,
    /// Asks the nodes to attest data.
    Attest {
        /// The data to attest.
        data_to_attest: Vec<u8>,
    },
    /// Subscribes to events of an EVM contract.
    SubscribeToEvmEvents {
        /// The chain.
        chain_id: EvmChainId,
        /// The filter of the events.
        filter: EvmEventFilter,
    },
    /// Ends a subscription to EVM events.
    UnsubscribeFromEvmEvents {
        /// The subscription to end.
        subscription_id: EventSubscriptionId,
    },
    /// Deletes an EVM event.
    DeleteEvmEvent {
        /// The event to delete.
        event_id: ExternalEventId,
    },
    /// Deletes EVM events.
    DeleteEvmEvents {
        /// The events to delete.
        events_to_delete: Vec<ExternalEventId>,
    },
}

/// The State bytes of each value.
pub open spec fn state_bytes_each<T: ReadWriteState>(s: Seq<T>) -> Seq<Seq<u8>> {
    Seq::new(s.len(), |i: int| s[i].state_bytes())
}

/// Writes each value in the State format, into a byte vector of its own.
fn state_bytes_vec<T: ReadWriteState>(values: &Vec<T>) -> (res: Vec<Vec<u8>>)
    ensures
        res.deep_view() == state_bytes_each(values@),
{
    let mut res: Vec<Vec<u8>> = Vec::new();
    let mut i: usize = 0;
    while i < values.len()
        invariant
            i <= values@.len(),
            res@.len() == i,
            forall|j: int| 0 <= j < i ==> (#[trigger] res@[j])@ == values@[j].state_bytes(),
        decreases values@.len() - i,
    {
        let mut buf: Vec<u8> = Vec::new();
        values[i].state_write_to(&mut buf);
        assert(buf@ =~= values@[i as int].state_bytes());
        res.push(buf);
        i = i + 1;
    }
    assert forall|j: int| 0 <= j < res@.len() implies res@[j].deep_view() == res@[j]@ by {
        assert(res@[j].deep_view() =~= res@[j]@);
    }
    assert(res.deep_view() =~= state_bytes_each(values@));
    res
}

/// The view of a state change: the deep views of what it holds.
pub open spec fn start_computation_view(c: ZkStateChange) -> (u32, Seq<Seq<u8>>, Seq<Seq<u8>>) {
    match c {
        ZkStateChange::StartComputation { function_shortname, output_variable_metadata, input_arguments } => (
            function_shortname.shortname@,
            output_variable_metadata.deep_view(),
            input_arguments.deep_view(),
        ),
        _ => (0, Seq::empty(), Seq::empty()),
    }
}

impl ZkStateChange {
    /// Starts a computation with no arguments: the function to run, and the
    /// metadata of each output variable.
    pub fn start_computation<T: ReadWriteState>(
        function_shortname: ShortnameZkComputation,
        output_variable_metadata: Vec<T>,
    ) -> (res: Self)
        ensures
            res is StartComputation,
            start_computation_view(res) == (
                function_shortname.shortname@,
                state_bytes_each(output_variable_metadata@),
                Seq::<Seq<u8>>::empty(),
            ),
    {
        let res = ZkStateChange::start_computation_with_inputs::<T, bool>(
            function_shortname,
            output_variable_metadata,
            Vec::new(),
        );
        assert(state_bytes_each(Seq::<bool>::empty()) =~= Seq::<Seq<u8>>::empty());
        res
    }

    /// Starts a computation: the function to run, the metadata of each output
    /// variable, and the arguments.
    pub fn start_computation_with_inputs<T: ReadWriteState, A: ReadWriteState>(
        function_shortname: ShortnameZkComputation,
        output_variable_metadata: Vec<T>,
        input_arguments: Vec<A>,
    ) -> (res: Self)
        ensures
            res is StartComputation,
            start_computation_view(res) == (
                function_shortname.shortname@,
                state_bytes_each(output_variable_metadata@),
                state_bytes_each(input_arguments@),
            ),
    {
        let output_variable_metadata = state_bytes_vec(&output_variable_metadata);
        let input_arguments = state_bytes_vec(&input_arguments);
        ZkStateChange::StartComputation {
            function_shortname,
            output_variable_metadata,
            input_arguments,
        }
    }
}

impl WriteRPC for ZkStateChange {
    /// A discriminant byte, then the change's fields.
    open spec fn rpc_bytes(&self) -> Seq<u8> {
        match self {
            ZkStateChange::StartComputation {
                function_shortname,
                output_variable_metadata,
                input_arguments,
            } => seq![0x09u8] + function_shortname.shortname@.rpc_bytes()
                + output_variable_metadata.rpc_bytes() + input_arguments.rpc_bytes(),
            ZkStateChange::DeletePendingInput { variable } => seq![0x01u8] + variable.rpc_bytes(),
            ZkStateChange::TransferVariable { variable, new_owner } => seq![0x02u8]
                + variable.rpc_bytes() + new_owner.rpc_bytes(),
            ZkStateChange::DeleteVariable { variable } => seq![0x03u8] + be_bytes(1, 4)
                + variable.rpc_bytes(),
            ZkStateChange::DeleteVariables { variables_to_delete } => seq![0x03u8]
                + variables_to_delete.rpc_bytes(),
            ZkStateChange::OpenVariables { variables } => seq![0x04u8] + variables.rpc_bytes(),
            ZkStateChange::OutputComplete {  } => seq![0x03u8] + be_bytes(0, 4),
            ZkStateChange::ContractDone => seq![0x06u8],
            ZkStateChange::Attest { data_to_attest } => seq![0x07u8] + data_to_attest.rpc_bytes(),
            ZkStateChange::SubscribeToEvmEvents { chain_id, filter } => seq![0x0Au8]
                + chain_id.rpc_bytes() + filter.rpc_bytes(),
            ZkStateChange::UnsubscribeFromEvmEvents { subscription_id } => seq![0x0Bu8]
                + subscription_id.rpc_bytes(),
            ZkStateChange::DeleteEvmEvent { event_id } => seq![0x0Cu8] + be_bytes(1, 4)
                + event_id.rpc_bytes(),
            ZkStateChange::DeleteEvmEvents { events_to_delete } => seq![0x0Cu8]
                + events_to_delete.rpc_bytes(),
        }
    }

    open spec fn rpc_representable(&self) -> bool {
        true
    }

    fn rpc_write_to(&self, writer: &mut Vec<u8>) {
        match self {
            ZkStateChange::StartComputation {
                function_shortname,
                output_variable_metadata,
                input_arguments,
            } => {
                writer.push(0x09);
                function_shortname.shortname.as_u32().rpc_write_to(writer);
                output_variable_metadata.rpc_write_to(writer);
                input_arguments.rpc_write_to(writer);
            },
            ZkStateChange::DeletePendingInput { variable } => {
                writer.push(0x01);
                variable.rpc_write_to(writer);
            },
            ZkStateChange::TransferVariable { variable, new_owner } => {
                writer.push(0x02);
                variable.rpc_write_to(writer);
                new_owner.rpc_write_to(writer);
            },
            ZkStateChange::DeleteVariable { variable } => {
                writer.push(0x03);
                crate::traits::write_uint_be(writer, 1, 4);
                variable.rpc_write_to(writer);
            },
            ZkStateChange::DeleteVariables { variables_to_delete } => {
                writer.push(0x03);
                variables_to_delete.rpc_write_to(writer);
            },
            ZkStateChange::OpenVariables { variables } => {
                writer.push(0x04);
                variables.rpc_write_to(writer);
            },
            ZkStateChange::OutputComplete {  } => {
                writer.push(0x03);
                crate::traits::write_uint_be(writer, 0, 4);
            },
            ZkStateChange::ContractDone => {
                writer.push(0x06);
            },
            ZkStateChange::Attest { data_to_attest } => {
                writer.push(0x07);
                data_to_attest.rpc_write_to(writer);
            },
            ZkStateChange::SubscribeToEvmEvents { chain_id, filter } => {
                writer.push(0x0A);
                chain_id.rpc_write_to(writer);
                filter.rpc_write_to(writer);
            },
            ZkStateChange::UnsubscribeFromEvmEvents { subscription_id } => {
                writer.push(0x0B);
                subscription_id.rpc_write_to(writer);
            },
            ZkStateChange::DeleteEvmEvent { event_id } => {
                writer.push(0x0C);
                crate::traits::write_uint_be(writer, 1, 4);
                event_id.rpc_write_to(writer);
            },
            ZkStateChange::DeleteEvmEvents { events_to_delete } => {
                writer.push(0x0C);
                events_to_delete.rpc_write_to(writer);
            },
        }
        assert(writer@ =~= old(writer)@ + self.rpc_bytes());
    }
}

impl DeepView for SecretVarId {
    type V = u32;

    open spec fn deep_view(&self) -> u32 {
        self.raw_id
    }
}

impl ReadWriteState for SecretVarId {
    open spec fn state_bytes(&self) -> Seq<u8> {
        self.raw_id.state_bytes()
    }

    open spec fn state_representable(&self) -> bool {
        true
    }

    open spec fn state_parse(data: Seq<u8>) -> Option<(u32, nat)> {
        <u32 as ReadWriteState>::state_parse(data)
    }

    fn state_read_from(reader: &mut &[u8]) -> (res: Self) {
        let raw_id = <u32 as ReadWriteState>::state_read_from(reader);
        SecretVarId { raw_id }
    }

    fn state_write_to(&self, writer: &mut Vec<u8>) {
        self.raw_id.state_write_to(writer);
    }

    proof fn lemma_state_roundtrip(&self, rest: Seq<u8>) {
        self.raw_id.lemma_state_roundtrip(rest);
    }
}

impl ReadRPC for SecretVarId {
    open spec fn rpc_parse(data: Seq<u8>) -> Option<(u32, nat)> {
        <u32 as ReadRPC>::rpc_parse(data)
    }

    fn rpc_read_from(reader: &mut &[u8]) -> (res: Self) {
        let raw_id = <u32 as ReadRPC>::rpc_read_from(reader);
        SecretVarId { raw_id }
    }
}

impl WriteRPC for SecretVarId {
    open spec fn rpc_bytes(&self) -> Seq<u8> {
        self.raw_id.rpc_bytes()
    }

    open spec fn rpc_representable(&self) -> bool {
        true
    }

    fn rpc_write_to(&self, writer: &mut Vec<u8>) {
        self.raw_id.rpc_write_to(writer);
    }
}

impl RpcRoundtrip for SecretVarId {
    proof fn lemma_rpc_roundtrip(&self, rest: Seq<u8>) {
        self.raw_id.lemma_rpc_roundtrip(rest);
    }
}

impl DeepView for AttestationId {
    type V = u32;

    closed spec fn deep_view(&self) -> u32 {
        self.raw_id
    }
}

impl ReadWriteState for AttestationId {
    /// The id, 4 bytes little-endian.
    open spec fn state_bytes(&self) -> Seq<u8> {
        self.deep_view().state_bytes()
    }

    open spec fn state_representable(&self) -> bool {
        true
    }

    open spec fn state_parse(data: Seq<u8>) -> Option<(u32, nat)> {
        <u32 as ReadWriteState>::state_parse(data)
    }

    fn state_read_from(reader: &mut &[u8]) -> (res: Self) {
        let raw_id = <u32 as ReadWriteState>::state_read_from(reader);
        AttestationId { raw_id }
    }

    fn state_write_to(&self, writer: &mut Vec<u8>) {
        self.raw_id.state_write_to(writer);
    }

    proof fn lemma_state_roundtrip(&self, rest: Seq<u8>) {
        self.raw_id.lemma_state_roundtrip(rest);
    }
}

impl ReadRPC for AttestationId {
    open spec fn rpc_parse(data: Seq<u8>) -> Option<(u32, nat)> {
        <u32 as ReadRPC>::rpc_parse(data)
    }

    fn rpc_read_from(reader: &mut &[u8]) -> (res: Self) {
        let raw_id = <u32 as ReadRPC>::rpc_read_from(reader);
        AttestationId { raw_id }
    }
}

impl WriteRPC for AttestationId {
    /// The id, 4 bytes big-endian.
    open spec fn rpc_bytes(&self) -> Seq<u8> {
        self.deep_view().rpc_bytes()
    }

    open spec fn rpc_representable(&self) -> bool {
        true
    }

    fn rpc_write_to(&self, writer: &mut Vec<u8>) {
        self.raw_id.rpc_write_to(writer);
    }
}

impl RpcRoundtrip for AttestationId {
    proof fn lemma_rpc_roundtrip(&self, rest: Seq<u8>) {
        self.raw_id.lemma_rpc_roundtrip(rest);
    }
}

impl StateCanonical for SecretVarId {
    open spec fn view_state_bytes(v: u32) -> Seq<u8> {
        v.state_bytes()
    }

    proof fn lemma_bytes_follow_view(&self) {
    }

    proof fn lemma_read_bytes_are_canonical(data: Seq<u8>) {
        <u32 as StateCanonical>::lemma_read_bytes_are_canonical(data);
    }
}

impl StateCanonical for AttestationId {
    open spec fn view_state_bytes(v: u32) -> Seq<u8> {
        v.state_bytes()
    }

    proof fn lemma_bytes_follow_view(&self) {
    }

    proof fn lemma_read_bytes_are_canonical(data: Seq<u8>) {
        <u32 as StateCanonical>::lemma_read_bytes_are_canonical(data);
    }
}

impl<MetadataT: StateCanonical> StateCanonical for ZkClosed<MetadataT> {
    open spec fn view_state_bytes(v: ZkClosedView<MetadataT::V>) -> Seq<u8> {
        v.0.state_bytes() + crate::address::address_bytes(v.1) + v.2.state_bytes()
            + MetadataT::view_state_bytes(v.3) + <Option<Vec<u8>> as StateCanonical>::view_state_bytes(
            v.4,
        )
    }

    proof fn lemma_bytes_follow_view(&self) {
        self.metadata.lemma_bytes_follow_view();
        self.data.lemma_bytes_follow_view();
        if self.data is Some {
            assert(self.data->Some_0.deep_view() =~= self.data->Some_0@);
        }
    }

    proof fn lemma_read_bytes_are_canonical(data: Seq<u8>) {
        <SecretVarId as StateCanonical>::lemma_read_bytes_are_canonical(data);
        if <SecretVarId as ReadWriteState>::state_parse(data) is Some {
            let n1 = <SecretVarId as ReadWriteState>::state_parse(data)->Some_0.1;
            let d1 = data.skip(n1 as int);
            <Address as StateCanonical>::lemma_read_bytes_are_canonical(d1);
            if <Address as ReadWriteState>::state_parse(d1) is Some {
                let n2 = <Address as ReadWriteState>::state_parse(d1)->Some_0.1;
                let d2 = data.skip((n1 + n2) as int);
                assert(d2 =~= d1.skip(n2 as int));
                <bool as StateCanonical>::lemma_read_bytes_are_canonical(d2);
                if <bool as ReadWriteState>::state_parse(d2) is Some {
                    let n3 = <bool as ReadWriteState>::state_parse(d2)->Some_0.1;
                    let d3 = data.skip((n1 + n2 + n3) as int);
                    assert(d3 =~= d2.skip(n3 as int));
                    MetadataT::lemma_read_bytes_are_canonical(d3);
                    if MetadataT::state_parse(d3) is Some {
                        let n4 = MetadataT::state_parse(d3)->Some_0.1;
                        let d4 = data.skip((n1 + n2 + n3 + n4) as int);
                        assert(d4 =~= d3.skip(n4 as int));
                        <Option<Vec<u8>> as StateCanonical>::lemma_read_bytes_are_canonical(d4);
                        if <Option<Vec<u8>> as ReadWriteState>::state_parse(d4) is Some {
                            let n5 = <Option<Vec<u8>> as ReadWriteState>::state_parse(d4)->Some_0.1;
                            assert(data.take((n1 + n2 + n3 + n4 + n5) as int) =~= data.take(n1 as int)
                                + d1.take(n2 as int) + d2.take(n3 as int) + d3.take(n4 as int)
                                + d4.take(n5 as int));
                        }
                    }
                }
            }
        }
    }
}

/// Every zero-knowledge state change is written beginning with the byte by
/// which the host tells the kinds of change apart: 0x01 to delete a pending
/// input, 0x02 to transfer a variable, 0x03 to delete variables (one, several,
/// or none when output is complete), 0x04 to open variables, 0x06 when the
/// contract is done, 0x07 to attest data, 0x09 to start a computation, 0x0A and
/// 0x0B to subscribe to and unsubscribe from EVM events, 0x0C to delete EVM
/// events.
pub proof fn law_zk_state_change_discriminants(c: ZkStateChange)
    ensures
        c.rpc_bytes().len() > 0,
        c is DeletePendingInput ==> c.rpc_bytes()[0] == 0x01u8,
        c is TransferVariable ==> c.rpc_bytes()[0] == 0x02u8,
        c is DeleteVariable ==> c.rpc_bytes()[0] == 0x03u8,
        c is DeleteVariables ==> c.rpc_bytes()[0] == 0x03u8,
        c is OutputComplete ==> c.rpc_bytes() == seq![0x03u8, 0u8, 0u8, 0u8, 0u8],
        c is OpenVariables ==> c.rpc_bytes()[0] == 0x04u8,
        c is ContractDone ==> c.rpc_bytes() == seq![0x06u8],
        c is Attest ==> c.rpc_bytes()[0] == 0x07u8,
        c is StartComputation ==> c.rpc_bytes()[0] == 0x09u8,
        c is SubscribeToEvmEvents ==> c.rpc_bytes()[0] == 0x0Au8,
        c is UnsubscribeFromEvmEvents ==> c.rpc_bytes()[0] == 0x0Bu8,
        c is DeleteEvmEvent ==> c.rpc_bytes()[0] == 0x0Cu8,
        c is DeleteEvmEvents ==> c.rpc_bytes()[0] == 0x0Cu8,
        c is DeleteVariable ==> c.rpc_bytes().subrange(1, 5) == seq![0u8, 0u8, 0u8, 1u8],
        c is DeleteEvmEvent ==> c.rpc_bytes().subrange(1, 5) == seq![0u8, 0u8, 0u8, 1u8],
{
    reveal_with_fuel(crate::traits::le_bytes, 5);
    match c {
        ZkStateChange::OutputComplete {  } => {
            assert(c.rpc_bytes() =~= seq![0x03u8, 0u8, 0u8, 0u8, 0u8]);
        },
        ZkStateChange::DeleteVariable { variable } => {
            assert(c.rpc_bytes().subrange(1, 5) =~= seq![0u8, 0u8, 0u8, 1u8]);
        },
        ZkStateChange::DeleteEvmEvent { event_id } => {
            assert(c.rpc_bytes().subrange(1, 5) =~= seq![0u8, 0u8, 0u8, 1u8]);
        },
        _ => {},
    }
}

/// Each calculation status is written as its fixed byte: 0 waiting, 1
/// calculating, 2 output, 3 malicious behaviour, 4 done; reading that byte gives
/// the status back, and no other byte is read as a status.
pub proof fn law_calculation_status_bytes(s: CalculationStatus, b: u8)
    ensures
        s is Waiting ==> calculation_status_byte(s) == 0u8,
        s is Calculating ==> calculation_status_byte(s) == 1u8,
        s is Output ==> calculation_status_byte(s) == 2u8,
        s is MaliciousBehaviour ==> calculation_status_byte(s) == 3u8,
        s is Done ==> calculation_status_byte(s) == 4u8,
        calculation_status_of_byte(calculation_status_byte(s)) == Some(s),
        calculation_status_of_byte(b) is Some <==> b <= 4,
        calculation_status_of_byte(b) matches Some(t) ==> calculation_status_byte(t) == b,
{
}

} // verus!
