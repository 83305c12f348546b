//! Events that a contract sends: interactions with other contracts, a callback
//! to the sending contract, and data returned to the caller.
//!
//! Events are grouped in [`EventGroup`]s, built with an [`EventGroupBuilder`].
use vstd::prelude::*;

use crate::address::{Address, Shortname, ShortnameCallback};
use crate::leb128::leb128_encode;
use crate::address::AddressType;
use crate::traits::{ReadRPC, RpcRoundtrip, WriteRPC};

verus! {

/// The cost of an event, in gas.
pub type GasCost = u64;

/// An interaction with a contract: the payload that is sent to it, and what it
/// may cost.
///
/// ### Fields:
/// * `dest`: the address of the receiving contract.
/// * `payload`: the RPC that is sent.
/// * `from_original_sender`: whether the interaction is sent in the name of the
///   original sender.
/// * `cost`: the gas that the interaction may cost, where it is limited.
/// * `cost_from_contract`: whether the gas is paid by the sending contract
///   rather than by the sender of the transaction.
#[derive(Eq, PartialEq, Debug)]
pub struct Interaction {
    /// The address of the receiving contract.
    pub dest: Address,
    /// The RPC that is sent.
    pub payload: Vec<u8>,
    /// Whether the interaction is sent in the name of the original sender.
    pub from_original_sender: bool,
    /// The gas that the interaction may cost, where it is limited.
    pub cost: Option<GasCost>,
    /// Whether the gas is paid by the sending contract.
    pub cost_from_contract: bool,
}

impl WriteRPC for Interaction {
    open spec fn rpc_bytes(&self) -> Seq<u8> {
        self.dest.rpc_bytes() + self.payload.rpc_bytes() + self.from_original_sender.rpc_bytes()
            + self.cost.rpc_bytes() + self.cost_from_contract.rpc_bytes()
    }

    open spec fn rpc_representable(&self) -> bool {
        self.payload@.len() <= u32::MAX
    }

    fn rpc_write_to(&self, writer: &mut Vec<u8>) {
        self.dest.rpc_write_to(writer);
        self.payload.rpc_write_to(writer);
        self.from_original_sender.rpc_write_to(writer);
        self.cost.rpc_write_to(writer);
        self.cost_from_contract.rpc_write_to(writer);
        assert(writer@ =~= old(writer)@ + self.rpc_bytes());
    }
}

/// A callback to the sending contract, sent once the interactions of its event
/// group have run.
#[derive(Eq, PartialEq, Debug)]
pub struct Callback {
    payload: Vec<u8>,
    cost: Option<GasCost>,
}

impl View for Callback {
    type V = (Seq<u8>, Option<GasCost>);

    /// The RPC that is sent, and the gas that the callback may cost.
    closed spec fn view(&self) -> (Seq<u8>, Option<GasCost>) {
        (self.payload@, self.cost)
    }
}

/// The bytes of a payload: its length in 4 bytes, most significant first, then
/// the payload.
pub open spec fn payload_bytes(p: Seq<u8>) -> Seq<u8> {
    crate::traits::be_bytes((p.len() as u32) as nat, 4) + p
}

/// The bytes of an optional payload: 0, or 1 and the payload's bytes.
pub open spec fn opt_payload_bytes(o: Option<Seq<u8>>) -> Seq<u8> {
    match o {
        None => seq![0u8],
        Some(p) => seq![1u8] + payload_bytes(p),
    }
}

/// The bytes of a callback: its payload, then its optional cost.
pub open spec fn callback_bytes(c: (Seq<u8>, Option<GasCost>)) -> Seq<u8> {
    payload_bytes(c.0) + c.1.rpc_bytes()
}

impl WriteRPC for Callback {
    open spec fn rpc_bytes(&self) -> Seq<u8> {
        callback_bytes(self@)
    }

    open spec fn rpc_representable(&self) -> bool {
        self@.0.len() <= u32::MAX
    }

    fn rpc_write_to(&self, writer: &mut Vec<u8>) {
        self.payload.rpc_write_to(writer);
        self.cost.rpc_write_to(writer);
        proof {
            crate::traits::vec::lemma_rpc_concat_bytes(self.payload@);
        }
        assert(writer@ =~= old(writer)@ + self.rpc_bytes());
    }
}

/// Data returned to the caller of a contract.
#[derive(Eq, PartialEq, Debug)]
pub struct ReturnData {
    data: Vec<u8>,
}

impl View for ReturnData {
    type V = Seq<u8>;

    /// The returned bytes.
    closed spec fn view(&self) -> Seq<u8> {
        self.data@
    }
}

impl ReturnData {
    /// The returned bytes.
    pub fn data(self) -> (res: Vec<u8>)
        ensures
            res@ == self@,
    {
        self.data
    }
}

impl WriteRPC for ReturnData {
    open spec fn rpc_bytes(&self) -> Seq<u8> {
        crate::traits::be_bytes((self@.len() as u32) as nat, 4) + self@
    }

    open spec fn rpc_representable(&self) -> bool {
        self@.len() <= u32::MAX
    }

    fn rpc_write_to(&self, writer: &mut Vec<u8>) {
        self.data.rpc_write_to(writer);
        proof {
            crate::traits::vec::lemma_rpc_concat_bytes(self.data@);
        }
        assert(writer@ =~= old(writer)@ + self.rpc_bytes());
    }
}

/// The view of an event group: the callback's payload and cost, the
/// interactions, and the returned data.
pub type EventGroupView = (Option<Seq<u8>>, Option<GasCost>, Seq<Interaction>, Option<Seq<u8>>);

/// A group of events: interactions, with an optional callback that runs after
/// them, or data returned to the caller.
#[derive(Eq, PartialEq, Debug)]
pub struct EventGroup {
    callback_payload: Option<Vec<u8>>,
    callback_cost: Option<GasCost>,
    events: Vec<Interaction>,
    return_data: Option<ReturnData>,
}

/// The bytes of an optional byte vector.
pub open spec fn opt_vec_view(o: Option<Vec<u8>>) -> Option<Seq<u8>> {
    match o {
        None => None,
        Some(v) => Some(v@),
    }
}

/// The bytes of optional returned data.
pub open spec fn opt_return_view(o: Option<ReturnData>) -> Option<Seq<u8>> {
    match o {
        None => None,
        Some(r) => Some(r@),
    }
}

impl View for EventGroup {
    type V = EventGroupView;

    closed spec fn view(&self) -> EventGroupView {
        (
            opt_vec_view(self.callback_payload),
            self.callback_cost,
            self.events@,
            opt_return_view(self.return_data),
        )
    }
}

/// The bytes of an event group: the callback's optional payload and cost, the
/// number of interactions in 4 bytes (most significant first) and the
/// interactions, then the optional returned data.
pub open spec fn event_group_bytes(v: EventGroupView) -> Seq<u8> {
    opt_payload_bytes(v.0) + v.1.rpc_bytes() + crate::traits::be_bytes(
        (v.2.len() as u32) as nat,
        4,
    ) + crate::traits::vec::rpc_concat(v.2) + opt_payload_bytes(v.3)
}

impl WriteRPC for EventGroup {
    open spec fn rpc_bytes(&self) -> Seq<u8> {
        event_group_bytes(self@)
    }

    open spec fn rpc_representable(&self) -> bool {
        &&& self@.2.len() <= u32::MAX
        &&& forall|i: int| 0 <= i < self@.2.len() ==> #[trigger] self@.2[i].rpc_representable()
    }

    fn rpc_write_to(&self, writer: &mut Vec<u8>) {
        self.callback_payload.rpc_write_to(writer);
        self.callback_cost.rpc_write_to(writer);
        self.events.rpc_write_to(writer);
        self.return_data.rpc_write_to(writer);
        proof {
            if self.callback_payload is Some {
                crate::traits::vec::lemma_rpc_concat_bytes(self.callback_payload->Some_0@);
            }
        }
        assert(writer@ =~= old(writer)@ + self.rpc_bytes());
    }
}

impl Default for EventGroup {
    /// An empty event group.
    fn default() -> (res: Self)
        ensures
            res@ == (None::<Seq<u8>>, None::<GasCost>, Seq::<Interaction>::empty(), None::<Seq<u8>>),
    {
        EventGroup::builder().build()
    }
}

impl EventGroup {
    /// A builder of an empty event group.
    pub fn builder() -> (res: EventGroupBuilder)
        ensures
            res@ == (None::<(Seq<u8>, Option<GasCost>)>, Seq::<Interaction>::empty(), None::<Seq<u8>>),
    {
        EventGroupBuilder { callback: None, interactions: Vec::new(), return_data: None }
    }

    /// The data returned to the caller, if any.
    pub fn return_data(self) -> (res: Option<ReturnData>)
        ensures
            opt_return_view(res) == self@.3,
    {
        self.return_data
    }
}

/// The view of a builder: the callback, the interactions and the returned data.
pub type EventGroupBuilderView = (Option<(Seq<u8>, Option<GasCost>)>, Seq<Interaction>, Option<Seq<u8>>);

/// The event group that a builder builds.
pub open spec fn built_view(b: EventGroupBuilderView) -> EventGroupView {
    (
        match b.0 {
            None => None,
            Some(c) => Some(c.0),
        },
        match b.0 {
            None => None,
            Some(c) => c.1,
        },
        b.1,
        b.2,
    )
}

/// A builder may build where a callback comes with interactions and without
/// returned data.
pub open spec fn can_build(b: EventGroupBuilderView) -> bool {
    b.0 is Some ==> b.1.len() > 0 && b.2 is None
}

/// A built event group with a callback has interactions and no returned data;
/// its interactions and returned data are those given to the builder.
pub proof fn law_built_group_is_consistent(b: EventGroupBuilderView)
    requires
        can_build(b),
    ensures
        built_view(b).0 is Some ==> built_view(b).2.len() > 0 && built_view(b).3 is None,
        built_view(b).2 == b.1,
        built_view(b).3 == b.2,
{
}

/// Arguments' RPC bytes, one after another.
pub open spec fn args_bytes(args: Seq<Seq<u8>>) -> Seq<u8>
    decreases args.len(),
{
    if args.len() == 0 {
        Seq::empty()
    } else {
        args_bytes(args.drop_last()) + args.last()
    }
}

/// A payload built from a start by appending each argument's bytes in turn:
/// `steps[0]` is the start, and each step appends the next argument.
pub open spec fn appends_args(steps: Seq<Seq<u8>>, args: Seq<Seq<u8>>) -> bool {
    &&& steps.len() == args.len() + 1
    &&& forall|i: int| 0 <= i < args.len() ==> #[trigger] steps[i + 1] == steps[i] + args[i]
}

proof fn lemma_appends_args(steps: Seq<Seq<u8>>, args: Seq<Seq<u8>>)
    requires
        appends_args(steps, args),
    ensures
        steps.last() == steps[0] + args_bytes(args),
    decreases args.len(),
{
    if args.len() == 0 {
        assert(steps[0] + Seq::<u8>::empty() =~= steps[0]);
    } else {
        let n = args.len() as int;
        lemma_appends_args(steps.drop_last(), args.drop_last());
        assert(steps[n] == steps[n - 1] + args[n - 1]);
        assert(steps[0] + args_bytes(args) =~= steps[0] + args_bytes(args.drop_last()) + args.last());
    }
}

/// An interaction built by `call(dest, shortname)`, then `argument` with
/// arguments whose RPC bytes are `args` in turn, then optionally `with_cost` or
/// `with_cost_from_contract`, then `done`, is appended to the builder's
/// interactions: its payload is the shortname's bytes followed by the
/// arguments' bytes, and it is not sent from the original sender; nothing else
/// of the builder changes. `steps` are the payloads after `call` and after each
/// `argument`, as their contracts give them; `before` and `after` are the
/// builder before `call` and after `done`.
pub proof fn law_interaction_builder_chain(
    before: EventGroupBuilderView,
    after: EventGroupBuilderView,
    dest: Address,
    shortname: u32,
    args: Seq<Seq<u8>>,
    steps: Seq<Seq<u8>>,
    cost: Option<GasCost>,
    cost_from_contract: bool,
)
    requires
        appends_args(steps, args),
        steps[0] == leb128_encode(shortname as nat),
        after.0 == before.0,
        after.2 == before.2,
        after.1.len() == before.1.len() + 1,
        after.1.drop_last() == before.1,
        after.1.last().dest == dest,
        after.1.last().payload@ == steps.last(),
        after.1.last().from_original_sender == false,
        after.1.last().cost == cost,
        after.1.last().cost_from_contract == cost_from_contract,
    ensures
        after.1 == before.1.push(after.1.last()),
        after.1.last().payload@ == leb128_encode(shortname as nat) + args_bytes(args),
        after.1.last().dest == dest,
        after.1.last().from_original_sender == false,
        after.1.last().cost == cost,
        after.1.last().cost_from_contract == cost_from_contract,
        after.0 == before.0,
        after.2 == before.2,
{
    lemma_appends_args(steps, args);
    assert(after.1 =~= before.1.push(after.1.last()));
}

/// A callback built by `with_callback(shortname)`, then `argument` with
/// arguments whose RPC bytes are `args` in turn, then optionally `with_cost`,
/// then `done`, replaces the builder's callback: its payload is the shortname's
/// bytes followed by the arguments' bytes; the interactions and the returned
/// data are unchanged. `steps` are the payloads after `with_callback` and after
/// each `argument`, as their contracts give them.
pub proof fn law_callback_builder_chain(
    before: EventGroupBuilderView,
    after: EventGroupBuilderView,
    shortname: u32,
    args: Seq<Seq<u8>>,
    steps: Seq<Seq<u8>>,
    cost: Option<GasCost>,
)
    requires
        appends_args(steps, args),
        steps[0] == leb128_encode(shortname as nat),
        after == (Some((steps.last(), cost)), before.1, before.2),
    ensures
        after.0 == Some((leb128_encode(shortname as nat) + args_bytes(args), cost)),
        after.1 == before.1,
        after.2 == before.2,
{
    lemma_appends_args(steps, args);
}

/// Data returned with `return_data(value)` is read back as the value: the
/// returned bytes are the value's RPC bytes, and reading them gives the value,
/// consuming all of them.
pub proof fn law_return_data_reads_back<T: RpcRoundtrip>(value: T, returned: Seq<u8>)
    requires
        returned == value.rpc_bytes(),
        value.rpc_representable(),
    ensures
        T::rpc_parse(returned) == Some((value.deep_view(), returned.len())),
{
    value.lemma_rpc_roundtrip(Seq::empty());
    assert(value.rpc_bytes() + Seq::<u8>::empty() =~= value.rpc_bytes());
}

/// Builds an [`EventGroup`].
#[derive(Debug)]
pub struct EventGroupBuilder {
    callback: Option<Callback>,
    interactions: Vec<Interaction>,
    return_data: Option<ReturnData>,
}

/// The view of an optional callback.
pub open spec fn opt_callback_view(o: Option<Callback>) -> Option<(Seq<u8>, Option<GasCost>)> {
    match o {
        None => None,
        Some(c) => Some(c@),
    }
}

impl View for EventGroupBuilder {
    type V = (Option<(Seq<u8>, Option<GasCost>)>, Seq<Interaction>, Option<Seq<u8>>);

    /// The callback, the interactions and the returned data so far.
    closed spec fn view(&self) -> (Option<(Seq<u8>, Option<GasCost>)>, Seq<Interaction>, Option<Seq<u8>>) {
        (opt_callback_view(self.callback), self.interactions@, opt_return_view(self.return_data))
    }
}

/// Builds an [`Interaction`] and adds it to the builder it came from.
#[derive(Debug)]
pub struct InteractionBuilder<'a> {
    /// The address of the receiving contract.
    pub dest: Address,
    /// The RPC so far: the shortname, then the arguments.
    pub payload: Vec<u8>,
    /// The gas that the interaction may cost, where it is limited.
    pub cost: Option<GasCost>,
    /// Whether the gas is paid by the sending contract.
    pub cost_from_contract: bool,
    /// The builder that the interaction is added to.
    pub parent: &'a mut EventGroupBuilder,
}

/// Builds a [`Callback`] and sets it on the builder it came from.
#[derive(Debug)]
pub struct CallbackBuilder<'a> {
    /// The RPC so far: the shortname, then the arguments.
    pub payload: Vec<u8>,
    /// The gas that the callback may cost, where it is limited.
    pub cost: Option<GasCost>,
    /// The builder that the callback is set on.
    pub parent: &'a mut EventGroupBuilder,
}

impl EventGroupBuilder {
    /// Starts an interaction with the contract at `dest`, calling the function
    /// of the given shortname.
    pub fn call(&mut self, dest: Address, shortname: Shortname) -> (res: InteractionBuilder<'_>)
        ensures
            res.dest == dest,
            res.payload@ == leb128_encode(shortname@ as nat),
            res.cost is None,
            res.cost_from_contract == false,
            *res.parent == *old(self),
            *final(res.parent) == *final(self),
    {
        InteractionBuilder {
            dest,
            payload: shortname.bytes(),
            cost: None,
            cost_from_contract: false,
            parent: self,
        }
    }

    /// Adds an interaction with an empty payload with the contract at `dest`.
    pub fn ping(&mut self, dest: Address, cost: Option<GasCost>)
        ensures
            final(self)@ == (
                old(self)@.0,
                old(self)@.1.push(
                    Interaction {
                        dest,
                        payload: final(self)@.1.last().payload,
                        from_original_sender: false,
                        cost,
                        cost_from_contract: false,
                    },
                ),
                old(self)@.2,
            ),
            final(self)@.1.last().payload@ == Seq::<u8>::empty(),
    {
        self.interactions.push(
            Interaction {
                dest,
                payload: Vec::new(),
                from_original_sender: false,
                cost,
                cost_from_contract: false,
            },
        );
    }

    /// Starts the callback, to the function of the given shortname.
    pub fn with_callback(&mut self, shortname: ShortnameCallback) -> (res: CallbackBuilder<'_>)
        ensures
            res.payload@ == leb128_encode(shortname.shortname@ as nat),
            res.cost is None,
            *res.parent == *old(self),
            *final(res.parent) == *final(self),
    {
        CallbackBuilder { payload: shortname.shortname.bytes(), cost: None, parent: self }
    }

    /// Sets the data returned to the caller: the RPC bytes of `return_value`.
    pub fn return_data<T: WriteRPC>(&mut self, return_value: T)
        ensures
            final(self)@ == (old(self)@.0, old(self)@.1, Some(return_value.rpc_bytes())),
    {
        let mut buffer: Vec<u8> = Vec::new();
        return_value.rpc_write_to(&mut buffer);
        assert(buffer@ =~= return_value.rpc_bytes());
        self.return_data = Some(ReturnData { data: buffer });
    }

    /// Builds the event group. A callback needs interactions, and excludes
    /// returned data.
    pub fn build(self) -> (res: EventGroup)
        requires
            can_build(self@),
        ensures
            res@ == built_view(self@),
    {
        let (callback_payload, callback_cost) = match self.callback {
            Some(x) => (Some(x.payload), x.cost),
            None => (None, None),
        };
        EventGroup { callback_payload, callback_cost, events: self.interactions, return_data: self.return_data }
    }
}

impl InteractionBuilder<'_> {
    /// Appends the RPC bytes of an argument to the payload.
    pub fn argument<T: WriteRPC>(self, arg: T) -> (res: Self)
        ensures
            res.dest == self.dest,
            res.payload@ == self.payload@ + arg.rpc_bytes(),
            res.cost == self.cost,
            res.cost_from_contract == self.cost_from_contract,
            *res.parent == *old(self.parent),
            *final(res.parent) == *final(self.parent),
    {
        let mut s = self;
        arg.rpc_write_to(&mut s.payload);
        s
    }

    /// Limits the gas that the interaction may cost.
    pub fn with_cost(self, cost: GasCost) -> (res: Self)
        ensures
            res.dest == self.dest,
            res.payload@ == self.payload@,
            res.cost == Some(cost),
            res.cost_from_contract == self.cost_from_contract,
            *res.parent == *old(self.parent),
            *final(res.parent) == *final(self.parent),
    {
        let mut s = self;
        s.cost = Some(cost);
        s
    }

    /// Limits the gas that the interaction may cost, and has the sending
    /// contract pay it.
    pub fn with_cost_from_contract(self, cost: GasCost) -> (res: Self)
        ensures
            res.dest == self.dest,
            res.payload@ == self.payload@,
            res.cost == Some(cost),
            res.cost_from_contract == true,
            *res.parent == *old(self.parent),
            *final(res.parent) == *final(self.parent),
    {
        let mut s = self;
        s.cost = Some(cost);
        s.cost_from_contract = true;
        s
    }

    /// Adds the interaction to the builder it came from.
    pub fn done(self)
        ensures
            final(self.parent)@.0 == old(self.parent)@.0,
            final(self.parent)@.2 == old(self.parent)@.2,
            final(self.parent)@.1.len() == old(self.parent)@.1.len() + 1,
            final(self.parent)@.1.drop_last() == old(self.parent)@.1,
            final(self.parent)@.1.last().dest == self.dest,
            final(self.parent)@.1.last().payload@ == self.payload@,
            final(self.parent)@.1.last().from_original_sender == false,
            final(self.parent)@.1.last().cost == self.cost,
            final(self.parent)@.1.last().cost_from_contract == self.cost_from_contract,
    {
        let ghost p = self.payload@;
        self.parent.interactions.push(
            Interaction {
                dest: self.dest,
                payload: self.payload,
                from_original_sender: false,
                cost: self.cost,
                cost_from_contract: self.cost_from_contract,
            },
        );
        assert(self.parent.interactions@.drop_last() =~= old(self.parent).interactions@);
    }
}

impl CallbackBuilder<'_> {
    /// Appends the RPC bytes of an argument to the payload.
    pub fn argument<T: WriteRPC>(self, arg: T) -> (res: Self)
        ensures
            res.payload@ == self.payload@ + arg.rpc_bytes(),
            res.cost == self.cost,
            *res.parent == *old(self.parent),
            *final(res.parent) == *final(self.parent),
    {
        let mut s = self;
        arg.rpc_write_to(&mut s.payload);
        s
    }

    /// Limits the gas that the callback may cost.
    pub fn with_cost(self, cost: GasCost) -> (res: Self)
        ensures
            res.payload@ == self.payload@,
            res.cost == Some(cost),
            *res.parent == *old(self.parent),
            *final(res.parent) == *final(self.parent),
    {
        let mut s = self;
        s.cost = Some(cost);
        s
    }

    /// Sets the callback on the builder it came from.
    pub fn done(self)
        ensures
            final(self.parent)@ == (Some((self.payload@, self.cost)), old(self.parent)@.1, old(
                self.parent,
            )@.2),
    {
        self.parent.callback = Some(Callback { payload: self.payload, cost: self.cost });
    }
}

/// The view of an interaction: its destination, payload, whether it is sent in
/// the name of the original sender, its cost, and whether the sending contract
/// pays the cost.
pub type InteractionView = ((AddressType, Seq<u8>), Seq<u8>, bool, Option<GasCost>, bool);

impl DeepView for Interaction {
    type V = InteractionView;

    open spec fn deep_view(&self) -> InteractionView {
        (
            self.dest.deep_view(),
            self.payload@,
            self.from_original_sender,
            self.cost,
            self.cost_from_contract,
        )
    }
}

impl ReadRPC for Interaction {
    open spec fn rpc_parse(data: Seq<u8>) -> Option<(InteractionView, nat)> {
        match <Address as ReadRPC>::rpc_parse(data) {
            None => None,
            Some((d, n1)) => match <Vec<u8> as ReadRPC>::rpc_parse(data.skip(n1 as int)) {
                None => None,
                Some((p, n2)) => match <bool as ReadRPC>::rpc_parse(data.skip((n1 + n2) as int)) {
                    None => None,
                    Some((f, n3)) => match <Option<GasCost> as ReadRPC>::rpc_parse(
                        data.skip((n1 + n2 + n3) as int),
                    ) {
                        None => None,
                        Some((c, n4)) => match <bool as ReadRPC>::rpc_parse(
                            data.skip((n1 + n2 + n3 + n4) as int),
                        ) {
                            None => None,
                            Some((k, n5)) => Some(((d, p, f, c, k), n1 + n2 + n3 + n4 + n5)),
                        },
                    },
                },
            },
        }
    }

    fn rpc_read_from(reader: &mut &[u8]) -> (res: Self) {
        let ghost d0 = reader@;
        let dest = <Address as ReadRPC>::rpc_read_from(reader);
        let ghost d1 = reader@;
        let payload = <Vec<u8> as ReadRPC>::rpc_read_from(reader);
        let ghost n2 = <Vec<u8> as ReadRPC>::rpc_parse(d1)->Some_0.1;
        assert(reader@ =~= d0.skip((21 + n2) as int));
        let from_original_sender = <bool as ReadRPC>::rpc_read_from(reader);
        assert(reader@ =~= d0.skip((22 + n2) as int));
        let ghost d3 = reader@;
        let cost = <Option<GasCost> as ReadRPC>::rpc_read_from(reader);
        let ghost n4 = <Option<GasCost> as ReadRPC>::rpc_parse(d3)->Some_0.1;
        assert(reader@ =~= d0.skip((22 + n2 + n4) as int));
        let cost_from_contract = <bool as ReadRPC>::rpc_read_from(reader);
        proof {
            assert(reader@ =~= d0.skip((23 + n2 + n4) as int));
            assert(payload.deep_view() =~= payload@);
        }
        Interaction { dest, payload, from_original_sender, cost, cost_from_contract }
    }
}

impl RpcRoundtrip for Interaction {
    #[verifier::spinoff_prover]
    #[verifier::rlimit(100)]
    proof fn lemma_rpc_roundtrip(&self, rest: Seq<u8>) {
        let a = self.dest.rpc_bytes();
        let b = self.payload.rpc_bytes();
        let c = self.from_original_sender.rpc_bytes();
        let d = self.cost.rpc_bytes();
        let e = self.cost_from_contract.rpc_bytes();
        let all = a + b + c + d + e + rest;
        let (na, nb, nc, nd, ne) = (a.len(), b.len(), c.len(), d.len(), e.len());
        assert(<Address as ReadRPC>::rpc_parse(all) == Some((self.dest.deep_view(), na))) by {
            assert(all =~= a + (b + (c + (d + (e + rest)))));
            self.dest.lemma_rpc_roundtrip(b + (c + (d + (e + rest))));
        }
        assert(<Vec<u8> as ReadRPC>::rpc_parse(all.skip(na as int)) == Some((self.payload@, nb)))
            by {
            assert(all.skip(na as int) =~= b + (c + (d + (e + rest))));
            self.payload.lemma_rpc_roundtrip(c + (d + (e + rest)));
            assert(self.payload.deep_view() =~= self.payload@);
        }
        assert(<bool as ReadRPC>::rpc_parse(all.skip((na + nb) as int)) == Some(
            (self.from_original_sender, nc),
        )) by {
            assert(all.skip((na + nb) as int) =~= c + (d + (e + rest)));
            self.from_original_sender.lemma_rpc_roundtrip(d + (e + rest));
        }
        assert(<Option<GasCost> as ReadRPC>::rpc_parse(all.skip((na + nb + nc) as int)) == Some(
            (self.cost, nd),
        )) by {
            assert(all.skip((na + nb + nc) as int) =~= d + (e + rest));
            self.cost.lemma_rpc_roundtrip(e + rest);
        }
        assert(<bool as ReadRPC>::rpc_parse(all.skip((na + nb + nc + nd) as int)) == Some(
            (self.cost_from_contract, ne),
        )) by {
            assert(all.skip((na + nb + nc + nd) as int) =~= e + rest);
            self.cost_from_contract.lemma_rpc_roundtrip(rest);
        }
    }
}

impl DeepView for ReturnData {
    type V = Seq<u8>;

    open spec fn deep_view(&self) -> Seq<u8> {
        self@
    }
}

impl ReadRPC for ReturnData {
    open spec fn rpc_parse(data: Seq<u8>) -> Option<(Seq<u8>, nat)> {
        <Vec<u8> as ReadRPC>::rpc_parse(data)
    }

    fn rpc_read_from(reader: &mut &[u8]) -> (res: Self) {
        let data = <Vec<u8> as ReadRPC>::rpc_read_from(reader);
        assert(data.deep_view() =~= data@);
        ReturnData { data }
    }
}

impl DeepView for Callback {
    type V = (Seq<u8>, Option<GasCost>);

    open spec fn deep_view(&self) -> (Seq<u8>, Option<GasCost>) {
        self@
    }
}

impl ReadRPC for Callback {
    open spec fn rpc_parse(data: Seq<u8>) -> Option<((Seq<u8>, Option<GasCost>), nat)> {
        match <Vec<u8> as ReadRPC>::rpc_parse(data) {
            None => None,
            Some((p, n1)) => match <Option<GasCost> as ReadRPC>::rpc_parse(data.skip(n1 as int)) {
                None => None,
                Some((c, n2)) => Some(((p, c), n1 + n2)),
            },
        }
    }

    fn rpc_read_from(reader: &mut &[u8]) -> (res: Self) {
        let ghost d0 = reader@;
        let payload = <Vec<u8> as ReadRPC>::rpc_read_from(reader);
        let ghost d1 = reader@;
        let cost = <Option<GasCost> as ReadRPC>::rpc_read_from(reader);
        proof {
            let n1 = <Vec<u8> as ReadRPC>::rpc_parse(d0)->Some_0.1;
            let n2 = <Option<GasCost> as ReadRPC>::rpc_parse(d1)->Some_0.1;
            assert(reader@ =~= d0.skip((n1 + n2) as int));
            assert(payload.deep_view() =~= payload@);
        }
        Callback { payload, cost }
    }
}

/// The deep view of an event group.
pub type EventGroupDeepView = (Option<Seq<u8>>, Option<GasCost>, Seq<InteractionView>, Option<Seq<u8>>);

impl DeepView for EventGroup {
    type V = EventGroupDeepView;

    closed spec fn deep_view(&self) -> EventGroupDeepView {
        (
            opt_vec_view(self.callback_payload),
            self.callback_cost,
            self.events.deep_view(),
            opt_return_view(self.return_data),
        )
    }
}

impl ReadRPC for EventGroup {
    open spec fn rpc_parse(data: Seq<u8>) -> Option<(EventGroupDeepView, nat)> {
        match <Option<Vec<u8>> as ReadRPC>::rpc_parse(data) {
            None => None,
            Some((p, n1)) => match <Option<GasCost> as ReadRPC>::rpc_parse(data.skip(n1 as int)) {
                None => None,
                Some((c, n2)) => match <Vec<Interaction> as ReadRPC>::rpc_parse(
                    data.skip((n1 + n2) as int),
                ) {
                    None => None,
                    Some((e, n3)) => match <Option<ReturnData> as ReadRPC>::rpc_parse(
                        data.skip((n1 + n2 + n3) as int),
                    ) {
                        None => None,
                        Some((r, n4)) => Some(((p, c, e, r), n1 + n2 + n3 + n4)),
                    },
                },
            },
        }
    }

    #[verifier::spinoff_prover]
    #[verifier::rlimit(40)]
    fn rpc_read_from(reader: &mut &[u8]) -> (res: Self) {
        let ghost d0 = reader@;
        let callback_payload = <Option<Vec<u8>> as ReadRPC>::rpc_read_from(reader);
        let ghost d1 = reader@;
        let ghost n1 = <Option<Vec<u8>> as ReadRPC>::rpc_parse(d0)->Some_0.1;
        let callback_cost = <Option<GasCost> as ReadRPC>::rpc_read_from(reader);
        let ghost d2 = reader@;
        let ghost n2 = <Option<GasCost> as ReadRPC>::rpc_parse(d1)->Some_0.1;
        assert(d2 =~= d0.skip((n1 + n2) as int));
        let events = <Vec<Interaction> as ReadRPC>::rpc_read_from(reader);
        let ghost d3 = reader@;
        let ghost n3 = <Vec<Interaction> as ReadRPC>::rpc_parse(d2)->Some_0.1;
        assert(d3 =~= d0.skip((n1 + n2 + n3) as int));
        let return_data = <Option<ReturnData> as ReadRPC>::rpc_read_from(reader);
        proof {
            let n4 = <Option<ReturnData> as ReadRPC>::rpc_parse(d3)->Some_0.1;
            assert(reader@ =~= d0.skip((n1 + n2 + n3 + n4) as int));
            if callback_payload is Some {
                assert(callback_payload->Some_0.deep_view() =~= callback_payload->Some_0@);
            }
            assert(opt_vec_view(callback_payload) == callback_payload.deep_view());
            assert(opt_return_view(return_data) == return_data.deep_view());
        }
        EventGroup { callback_payload, callback_cost, events, return_data }
    }
}

} // verus!
