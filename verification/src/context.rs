//! The context that a contract's invocations run in.
use vstd::prelude::*;

use crate::address::{Address, AddressType};
use crate::traits::{ReadRPC, RpcRoundtrip, WriteRPC};

verus! {

/// The context of an invocation: who and what the contract is running for.
///
/// ## Serialization
///
/// In the RPC format the fields are written one after another, in order.
#[derive(Eq, PartialEq, Debug)]
pub struct ContractContext {
    /// The address of the contract being invoked.
    pub contract_address: Address,
    /// The address of the sender of the transaction.
    pub sender: Address,
    /// The block time of the block that the transaction is executed in.
    pub block_time: i64,
    /// The production time of the block, in milliseconds since the UNIX epoch.
    pub block_production_time: i64,
    /// The hash of the transaction being executed.
    pub current_transaction: crate::primitives::Hash,
    /// The hash of the transaction that started the chain of events.
    pub original_transaction: crate::primitives::Hash,
}

/// The view of a context: the deep views of its fields.
pub type ContractContextView = (
    (AddressType, Seq<u8>),
    (AddressType, Seq<u8>),
    i64,
    i64,
    Seq<u8>,
    Seq<u8>,
);

impl DeepView for ContractContext {
    type V = ContractContextView;

    open spec fn deep_view(&self) -> ContractContextView {
        (
            self.contract_address.deep_view(),
            self.sender.deep_view(),
            self.block_time,
            self.block_production_time,
            self.current_transaction.deep_view(),
            self.original_transaction.deep_view(),
        )
    }
}

/// The RPC parse of a context: two addresses, two 8-byte numbers and two hashes.
pub open spec fn context_parse(data: Seq<u8>) -> Option<(ContractContextView, nat)> {
    match <Address as ReadRPC>::rpc_parse(data) {
        None => None,
        Some((a, n1)) => match <Address as ReadRPC>::rpc_parse(data.skip(n1 as int)) {
            None => None,
            Some((s, n2)) => match <i64 as ReadRPC>::rpc_parse(data.skip((n1 + n2) as int)) {
                None => None,
                Some((t, n3)) => match <i64 as ReadRPC>::rpc_parse(data.skip((n1 + n2 + n3) as int)) {
                    None => None,
                    Some((p, n4)) => match <crate::primitives::Hash as ReadRPC>::rpc_parse(
                        data.skip((n1 + n2 + n3 + n4) as int),
                    ) {
                        None => None,
                        Some((h1, n5)) => match <crate::primitives::Hash as ReadRPC>::rpc_parse(
                            data.skip((n1 + n2 + n3 + n4 + n5) as int),
                        ) {
                            None => None,
                            Some((h2, n6)) => Some(
                                ((a, s, t, p, h1, h2), n1 + n2 + n3 + n4 + n5 + n6),
                            ),
                        },
                    },
                },
            },
        },
    }
}

impl ReadRPC for ContractContext {
    open spec fn rpc_parse(data: Seq<u8>) -> Option<(ContractContextView, nat)> {
        context_parse(data)
    }

    fn rpc_read_from(reader: &mut &[u8]) -> (res: Self) {
        let ghost d0 = reader@;
        let contract_address = <Address as ReadRPC>::rpc_read_from(reader);
        let ghost d1 = reader@;
        let sender = <Address as ReadRPC>::rpc_read_from(reader);
        let ghost d2 = reader@;
        let block_time = <i64 as ReadRPC>::rpc_read_from(reader);
        let ghost d3 = reader@;
        let block_production_time = <i64 as ReadRPC>::rpc_read_from(reader);
        let ghost d4 = reader@;
        let current_transaction = <crate::primitives::Hash as ReadRPC>::rpc_read_from(reader);
        let ghost d5 = reader@;
        let original_transaction = <crate::primitives::Hash as ReadRPC>::rpc_read_from(reader);
        proof {
            let n1 = 21int;
            let n2 = 21int;
            assert(d1 == d0.skip(n1));
            assert(d2 =~= d0.skip(n1 + n2));
            assert(d3 =~= d0.skip(n1 + n2 + 8));
            assert(d4 =~= d0.skip(n1 + n2 + 16));
            assert(d5 =~= d0.skip(n1 + n2 + 16 + 32));
            assert(reader@ =~= d0.skip(n1 + n2 + 16 + 64));
        }
        ContractContext {
            contract_address,
            sender,
            block_time,
            block_production_time,
            current_transaction,
            original_transaction,
        }
    }
}

impl WriteRPC for ContractContext {
    open spec fn rpc_bytes(&self) -> Seq<u8> {
        self.contract_address.rpc_bytes() + self.sender.rpc_bytes() + self.block_time.rpc_bytes()
            + self.block_production_time.rpc_bytes() + self.current_transaction.rpc_bytes()
            + self.original_transaction.rpc_bytes()
    }

    open spec fn rpc_representable(&self) -> bool {
        true
    }

    fn rpc_write_to(&self, writer: &mut Vec<u8>) {
        self.contract_address.rpc_write_to(writer);
        self.sender.rpc_write_to(writer);
        self.block_time.rpc_write_to(writer);
        self.block_production_time.rpc_write_to(writer);
        self.current_transaction.rpc_write_to(writer);
        self.original_transaction.rpc_write_to(writer);
        assert(writer@ =~= old(writer)@ + self.rpc_bytes());
    }
}

/// The result of one interaction of an event group, as a callback sees it.
pub struct ExecutionResult {
    /// Whether the interaction succeeded.
    pub succeeded: bool,
    /// The data that the interaction returned, in the RPC format.
    pub return_data: Vec<u8>,
}

impl DeepView for ExecutionResult {
    type V = (bool, Seq<u8>);

    open spec fn deep_view(&self) -> (bool, Seq<u8>) {
        (self.succeeded, self.return_data@)
    }
}

impl ExecutionResult {
    /// Reads the returned data as a value of type `T`, in the RPC format.
    pub fn get_return_data<T: ReadRPC>(&self) -> (res: T)
        requires
            T::rpc_parse(self.return_data@) is Some,
        ensures
            res.deep_view() == T::rpc_parse(self.return_data@)->Some_0.0,
    {
        let mut return_data_bytes: &[u8] = self.return_data.as_slice();
        T::rpc_read_from(&mut return_data_bytes)
    }
}

impl ReadRPC for ExecutionResult {
    open spec fn rpc_parse(data: Seq<u8>) -> Option<((bool, Seq<u8>), nat)> {
        match <bool as ReadRPC>::rpc_parse(data) {
            None => None,
            Some((b, n)) => match <Vec<u8> as ReadRPC>::rpc_parse(data.skip(n as int)) {
                None => None,
                Some((r, m)) => Some(((b, r), n + m)),
            },
        }
    }

    fn rpc_read_from(reader: &mut &[u8]) -> (res: Self) {
        let ghost d0 = reader@;
        let succeeded = <bool as ReadRPC>::rpc_read_from(reader);
        let ghost d1 = reader@;
        let return_data = <Vec<u8> as ReadRPC>::rpc_read_from(reader);
        proof {
            let m = <Vec<u8> as ReadRPC>::rpc_parse(d1)->Some_0.1;
            assert(reader@ =~= d0.skip((1 + m) as int));
            assert(return_data.deep_view() =~= return_data@);
        }
        ExecutionResult { succeeded, return_data }
    }
}

impl WriteRPC for ExecutionResult {
    open spec fn rpc_bytes(&self) -> Seq<u8> {
        self.succeeded.rpc_bytes() + self.return_data.rpc_bytes()
    }

    open spec fn rpc_representable(&self) -> bool {
        self.return_data.rpc_representable()
    }

    fn rpc_write_to(&self, writer: &mut Vec<u8>) {
        self.succeeded.rpc_write_to(writer);
        self.return_data.rpc_write_to(writer);
        assert(writer@ =~= old(writer)@ + self.rpc_bytes());
    }
}

impl RpcRoundtrip for ExecutionResult {
    proof fn lemma_rpc_roundtrip(&self, rest: Seq<u8>) {
        let b = self.succeeded.rpc_bytes();
        let r = self.return_data.rpc_bytes();
        assert(b + r + rest =~= b + (r + rest));
        self.succeeded.lemma_rpc_roundtrip(r + rest);
        assert((b + (r + rest)).skip(b.len() as int) =~= r + rest);
        self.return_data.lemma_rpc_roundtrip(rest);
        assert(self.return_data.deep_view() =~= self.return_data@);
    }
}

/// The context of a callback: whether all interactions of the event group
/// succeeded, and the result of each.
pub struct CallbackContext {
    /// Whether all interactions succeeded.
    pub success: bool,
    /// The result of each interaction, in the order they were sent.
    pub results: Vec<ExecutionResult>,
}

impl DeepView for CallbackContext {
    type V = (bool, Seq<(bool, Seq<u8>)>);

    open spec fn deep_view(&self) -> (bool, Seq<(bool, Seq<u8>)>) {
        (self.success, self.results.deep_view())
    }
}

impl ReadRPC for CallbackContext {
    open spec fn rpc_parse(data: Seq<u8>) -> Option<((bool, Seq<(bool, Seq<u8>)>), nat)> {
        match <bool as ReadRPC>::rpc_parse(data) {
            None => None,
            Some((b, n)) => match <Vec<ExecutionResult> as ReadRPC>::rpc_parse(data.skip(n as int)) {
                None => None,
                Some((r, m)) => Some(((b, r), n + m)),
            },
        }
    }

    fn rpc_read_from(reader: &mut &[u8]) -> (res: Self) {
        let ghost d0 = reader@;
        let success = <bool as ReadRPC>::rpc_read_from(reader);
        let ghost d1 = reader@;
        let results = <Vec<ExecutionResult> as ReadRPC>::rpc_read_from(reader);
        proof {
            let m = <Vec<ExecutionResult> as ReadRPC>::rpc_parse(d1)->Some_0.1;
            assert(reader@ =~= d0.skip((1 + m) as int));
        }
        CallbackContext { success, results }
    }
}

impl WriteRPC for CallbackContext {
    open spec fn rpc_bytes(&self) -> Seq<u8> {
        self.success.rpc_bytes() + self.results.rpc_bytes()
    }

    open spec fn rpc_representable(&self) -> bool {
        self.results.rpc_representable()
    }

    fn rpc_write_to(&self, writer: &mut Vec<u8>) {
        self.success.rpc_write_to(writer);
        self.results.rpc_write_to(writer);
        assert(writer@ =~= old(writer)@ + self.rpc_bytes());
    }
}

impl RpcRoundtrip for CallbackContext {
    proof fn lemma_rpc_roundtrip(&self, rest: Seq<u8>) {
        let b = self.success.rpc_bytes();
        let r = self.results.rpc_bytes();
        assert(b + r + rest =~= b + (r + rest));
        self.success.lemma_rpc_roundtrip(r + rest);
        assert((b + (r + rest)).skip(b.len() as int) =~= r + rest);
        self.results.lemma_rpc_roundtrip(rest);
    }
}

} // verus!
