//! Subscriptions to events of EVM chains, and the events that arrive.
use vstd::prelude::*;

use crate::primitives::U256;
use crate::traits::vec::{rpc_concat, state_concat};
use crate::traits::{be_bytes, le_bytes, ReadRPC, ReadWriteState, RpcRoundtrip, WriteRPC};

verus! {

/// The address of an EVM contract.
pub type EvmAddress = [u8; 20];

/// The id of an EVM chain.
pub type EvmChainId = String;

/// A topic of an EVM event.
pub type EvmEventTopic = [u8; 32];

/// The topics that one position of an event may hold; empty matches any.
pub type EvmEventTopicFilter = Vec<EvmEventTopic>;

/// A filter of the events of an EVM contract: from a block on, and by topic.
///
/// ## Serialization
///
/// In the RPC format: the address, the block number (most significant byte
/// first), then the topic filters.
#[derive(Eq, PartialEq, Debug, Clone, Ord, PartialOrd)]
pub struct EvmEventFilter {
    address: EvmAddress,
    from_block: U256,
    topics: Vec<EvmEventTopicFilter>,
}

/// The view of an event filter: the address, the block number's bytes (least
/// significant first), and the topic filters.
pub type EvmEventFilterView = (Seq<u8>, Seq<u8>, Seq<Seq<Seq<u8>>>);

/// Byte strings one after another.
pub open spec fn concat_byte_strings(s: Seq<Seq<u8>>) -> Seq<u8>
    decreases s.len(),
{
    if s.len() == 0 {
        Seq::empty()
    } else {
        s[0] + concat_byte_strings(s.drop_first())
    }
}

/// The 4 bytes of a list's length: most significant first in the RPC format
/// (`rpc`), least significant first in the State format.
pub open spec fn list_len_bytes(n: nat, rpc: bool) -> Seq<u8> {
    if rpc {
        be_bytes((n as u32) as nat, 4)
    } else {
        le_bytes((n as u32) as nat, 4)
    }
}

/// The bytes of a topic filter: its number of topics, then the topics.
pub open spec fn topic_filter_bytes(f: Seq<Seq<u8>>, rpc: bool) -> Seq<u8> {
    list_len_bytes(f.len(), rpc) + concat_byte_strings(f)
}

/// The bytes of a list of topic filters: their number, then each filter.
pub open spec fn topic_filters_bytes(t: Seq<Seq<Seq<u8>>>, rpc: bool) -> Seq<u8> {
    list_len_bytes(t.len(), rpc) + concat_byte_strings(
        t.map_values(|f: Seq<Seq<u8>>| topic_filter_bytes(f, rpc)),
    )
}

/// The bytes of an event filter: the address, the block number (most
/// significant byte first in the RPC format, least significant first in the
/// State format), then the topic filters.
pub open spec fn event_filter_bytes(v: EvmEventFilterView, rpc: bool) -> Seq<u8> {
    v.0 + (if rpc {
        v.1.reverse()
    } else {
        v.1
    }) + topic_filters_bytes(v.2, rpc)
}

/// Whether the lists of a filter fit the formats' 32-bit lengths.
pub open spec fn event_filter_representable(v: EvmEventFilterView) -> bool {
    &&& v.2.len() <= u32::MAX
    &&& forall|i: int| 0 <= i < v.2.len() ==> #[trigger] v.2[i].len() <= u32::MAX
}

proof fn lemma_topics_concat(s: Seq<[u8; 32]>)
    ensures
        rpc_concat(s) == concat_byte_strings(s.map_values(|a: [u8; 32]| a.deep_view())),
        state_concat(s) == concat_byte_strings(s.map_values(|a: [u8; 32]| a.deep_view())),
    decreases s.len(),
{
    if s.len() > 0 {
        lemma_topics_concat(s.drop_first());
        assert(s[0].deep_view() =~= s[0]@);
        assert(s.map_values(|a: [u8; 32]| a.deep_view()).drop_first() =~= s.drop_first().map_values(
            |a: [u8; 32]| a.deep_view(),
        ));
    } else {
        assert(s.map_values(|a: [u8; 32]| a.deep_view()) =~= Seq::<Seq<u8>>::empty());
    }
}

proof fn lemma_filter_bytes(f: Vec<[u8; 32]>)
    ensures
        f.rpc_bytes() == topic_filter_bytes(f.deep_view(), true),
        f.state_bytes() == topic_filter_bytes(f.deep_view(), false),
{
    lemma_topics_concat(f@);
    assert(f@.map_values(|a: [u8; 32]| a.deep_view()) =~= f.deep_view());
}

proof fn lemma_filters_concat(s: Seq<Vec<[u8; 32]>>)
    ensures
        rpc_concat(s) == concat_byte_strings(
            s.map_values(|f: Vec<[u8; 32]>| topic_filter_bytes(f.deep_view(), true)),
        ),
        state_concat(s) == concat_byte_strings(
            s.map_values(|f: Vec<[u8; 32]>| topic_filter_bytes(f.deep_view(), false)),
        ),
    decreases s.len(),
{
    if s.len() > 0 {
        lemma_filters_concat(s.drop_first());
        lemma_filter_bytes(s[0]);
        assert(s.map_values(|f: Vec<[u8; 32]>| topic_filter_bytes(f.deep_view(), true)).drop_first()
            =~= s.drop_first().map_values(
            |f: Vec<[u8; 32]>| topic_filter_bytes(f.deep_view(), true),
        ));
        assert(s.map_values(|f: Vec<[u8; 32]>| topic_filter_bytes(f.deep_view(), false)).drop_first()
            =~= s.drop_first().map_values(
            |f: Vec<[u8; 32]>| topic_filter_bytes(f.deep_view(), false),
        ));
    } else {
        assert(s.map_values(|f: Vec<[u8; 32]>| topic_filter_bytes(f.deep_view(), true))
            =~= Seq::<Seq<u8>>::empty());
        assert(s.map_values(|f: Vec<[u8; 32]>| topic_filter_bytes(f.deep_view(), false))
            =~= Seq::<Seq<u8>>::empty());
    }
}

proof fn lemma_topic_filters_bytes(t: Vec<EvmEventTopicFilter>)
    ensures
        t.rpc_bytes() == topic_filters_bytes(t.deep_view(), true),
        t.state_bytes() == topic_filters_bytes(t.deep_view(), false),
        t.rpc_representable() == (t.deep_view().len() <= u32::MAX && forall|i: int|
            0 <= i < t.deep_view().len() ==> #[trigger] t.deep_view()[i].len() <= u32::MAX),
        t.state_representable() == t.rpc_representable(),
{
    lemma_filters_concat(t@);
    assert(t@.map_values(|f: Vec<[u8; 32]>| topic_filter_bytes(f.deep_view(), true))
        =~= t.deep_view().map_values(|f: Seq<Seq<u8>>| topic_filter_bytes(f, true)));
    assert(t@.map_values(|f: Vec<[u8; 32]>| topic_filter_bytes(f.deep_view(), false))
        =~= t.deep_view().map_values(|f: Seq<Seq<u8>>| topic_filter_bytes(f, false)));
    let d = t.deep_view();
    assert forall|i: int| 0 <= i < t@.len() implies #[trigger] t@[i].rpc_representable() == (
    d[i].len() <= u32::MAX) && t@[i].state_representable() == t@[i].rpc_representable() by {
        assert(d[i] == t@[i].deep_view());
        assert forall|j: int| 0 <= j < t@[i]@.len() implies #[trigger] t@[i]@[j].rpc_representable()
            && t@[i]@[j].state_representable() by {}
    }
    if t.rpc_representable() {
        assert forall|i: int| 0 <= i < d.len() implies #[trigger] d[i].len() <= u32::MAX by {
            assert(t@[i].rpc_representable());
        }
    }
    if d.len() <= u32::MAX && forall|i: int| 0 <= i < d.len() ==> #[trigger] d[i].len() <= u32::MAX {
        assert forall|i: int| 0 <= i < t@.len() implies #[trigger] t@[i].rpc_representable() by {
            assert(d[i].len() <= u32::MAX);
        }
    }
    if t.state_representable() {
        assert forall|i: int| 0 <= i < t@.len() implies #[trigger] t@[i].rpc_representable() by {
            assert(t@[i].state_representable());
        }
    }
    if t.rpc_representable() {
        assert forall|i: int| 0 <= i < t@.len() implies #[trigger] t@[i].state_representable() by {
            assert(t@[i].rpc_representable());
        }
    }
}

impl DeepView for EvmEventFilter {
    type V = EvmEventFilterView;

    closed spec fn deep_view(&self) -> EvmEventFilterView {
        (self.address@, self.from_block.bytes@, self.topics.deep_view())
    }
}

impl WriteRPC for EvmEventFilter {
    open spec fn rpc_bytes(&self) -> Seq<u8> {
        event_filter_bytes(self.deep_view(), true)
    }

    open spec fn rpc_representable(&self) -> bool {
        event_filter_representable(self.deep_view())
    }

    fn rpc_write_to(&self, writer: &mut Vec<u8>) {
        self.address.rpc_write_to(writer);
        self.from_block.rpc_write_to(writer);
        self.topics.rpc_write_to(writer);
        proof {
            lemma_topic_filters_bytes(self.topics);
        }
        assert(writer@ =~= old(writer)@ + self.rpc_bytes());
    }
}

impl ReadRPC for EvmEventFilter {
    /// The address, the block number, then the topic filters.
    open spec fn rpc_parse(data: Seq<u8>) -> Option<(EvmEventFilterView, nat)> {
        match <[u8; 20] as ReadRPC>::rpc_parse(data) {
            None => None,
            Some((address, n1)) => match <U256 as ReadRPC>::rpc_parse(data.skip(n1 as int)) {
                None => None,
                Some((block, n2)) => match <Vec<EvmEventTopicFilter> as ReadRPC>::rpc_parse(
                    data.skip((n1 + n2) as int),
                ) {
                    None => None,
                    Some((topics, n3)) => Some(((address, block, topics), n1 + n2 + n3)),
                },
            },
        }
    }

    fn rpc_read_from(reader: &mut &[u8]) -> (res: Self) {
        let ghost d0 = reader@;
        let address = <[u8; 20] as ReadRPC>::rpc_read_from(reader);
        let ghost d1 = reader@;
        let from_block = <U256 as ReadRPC>::rpc_read_from(reader);
        let ghost d2 = reader@;
        assert(d2 =~= d0.skip(52));
        let topics = <Vec<EvmEventTopicFilter> as ReadRPC>::rpc_read_from(reader);
        proof {
            let n3 = <Vec<EvmEventTopicFilter> as ReadRPC>::rpc_parse(d2)->Some_0.1;
            assert(reader@ =~= d0.skip((52 + n3) as int));
            assert(address.deep_view() =~= address@);
        }
        EvmEventFilter { address, from_block, topics }
    }
}

impl RpcRoundtrip for EvmEventFilter {
    proof fn lemma_rpc_roundtrip(&self, rest: Seq<u8>) {
        lemma_topic_filters_bytes(self.topics);
        assert(self.address.deep_view() =~= self.address@);
        let a = self.address.rpc_bytes();
        let b = self.from_block.rpc_bytes();
        let t = self.topics.rpc_bytes();
        assert(a + b + t + rest =~= a + (b + (t + rest)));
        self.address.lemma_rpc_roundtrip(b + (t + rest));
        assert((a + (b + (t + rest))).skip(a.len() as int) =~= b + (t + rest));
        self.from_block.lemma_rpc_roundtrip(t + rest);
        assert((a + (b + (t + rest))).skip((a.len() + b.len()) as int) =~= t + rest);
        self.topics.lemma_rpc_roundtrip(rest);
        assert(self.address.deep_view() =~= self.address@);
    }
}

impl ReadWriteState for EvmEventFilter {
    /// The address, the block number (least significant byte first), then the
    /// topic filters.
    open spec fn state_bytes(&self) -> Seq<u8> {
        event_filter_bytes(self.deep_view(), false)
    }

    open spec fn state_representable(&self) -> bool {
        event_filter_representable(self.deep_view())
    }

    open spec fn state_parse(data: Seq<u8>) -> Option<(EvmEventFilterView, nat)> {
        match <[u8; 20] as ReadWriteState>::state_parse(data) {
            None => None,
            Some((address, n1)) => match <U256 as ReadWriteState>::state_parse(
                data.skip(n1 as int),
            ) {
                None => None,
                Some((block, n2)) => match <Vec<EvmEventTopicFilter> as ReadWriteState>::state_parse(
                    data.skip((n1 + n2) as int),
                ) {
                    None => None,
                    Some((topics, n3)) => Some(((address, block, topics), n1 + n2 + n3)),
                },
            },
        }
    }

    fn state_read_from(reader: &mut &[u8]) -> (res: Self) {
        let ghost d0 = reader@;
        let address = <[u8; 20] as ReadWriteState>::state_read_from(reader);
        let from_block = <U256 as ReadWriteState>::state_read_from(reader);
        let ghost d2 = reader@;
        assert(d2 =~= d0.skip(52));
        let topics = <Vec<EvmEventTopicFilter> as ReadWriteState>::state_read_from(reader);
        proof {
            let n3 = <Vec<EvmEventTopicFilter> as ReadWriteState>::state_parse(d2)->Some_0.1;
            assert(reader@ =~= d0.skip((52 + n3) as int));
            assert(address.deep_view() =~= address@);
        }
        EvmEventFilter { address, from_block, topics }
    }

    fn state_write_to(&self, writer: &mut Vec<u8>) {
        self.address.state_write_to(writer);
        self.from_block.state_write_to(writer);
        self.topics.state_write_to(writer);
        proof {
            lemma_topic_filters_bytes(self.topics);
        }
        assert(writer@ =~= old(writer)@ + self.state_bytes());
    }

    proof fn lemma_state_roundtrip(&self, rest: Seq<u8>) {
        lemma_topic_filters_bytes(self.topics);
        assert(self.address.deep_view() =~= self.address@);
        let a = self.address.state_bytes();
        let b = self.from_block.state_bytes();
        let t = self.topics.state_bytes();
        assert(a + b + t + rest =~= a + (b + (t + rest)));
        self.address.lemma_state_roundtrip(b + (t + rest));
        assert((a + (b + (t + rest))).skip(a.len() as int) =~= b + (t + rest));
        self.from_block.lemma_state_roundtrip(t + rest);
        assert((a + (b + (t + rest))).skip((a.len() + b.len()) as int) =~= t + rest);
        self.topics.lemma_state_roundtrip(rest);
        assert(self.address.deep_view() =~= self.address@);
    }
}

impl EvmEventFilter {
    /// A builder of a filter of the events of the contract at `address`.
    pub fn builder(address: EvmAddress) -> (res: EvmEventFilterBuilder)
        ensures
            res.deep_view() == (address@, None::<Seq<u8>>, Seq::<Seq<Seq<u8>>>::empty()),
    {
        EvmEventFilterBuilder { address, from_block: None, topics: Vec::new() }
    }
}

/// Builds an [`EvmEventFilter`].
pub struct EvmEventFilterBuilder {
    address: EvmAddress,
    from_block: Option<U256>,
    topics: Vec<EvmEventTopicFilter>,
}

impl DeepView for EvmEventFilterBuilder {
    type V = (Seq<u8>, Option<Seq<u8>>, Seq<Seq<Seq<u8>>>);

    /// The address, the first block, if set, and the topic filters so far.
    closed spec fn deep_view(&self) -> (Seq<u8>, Option<Seq<u8>>, Seq<Seq<Seq<u8>>>) {
        (
            self.address@,
            match self.from_block {
                None => None,
                Some(b) => Some(b.bytes@),
            },
            self.topics.deep_view(),
        )
    }
}

impl EvmEventFilterBuilder {
    /// Filters events from the given block on.
    pub fn filter_from_block(self, block_number: U256) -> (res: Self)
        ensures
            res.deep_view() == (self.deep_view().0, Some(block_number.bytes@), self.deep_view().2),
    {
        let mut s = self;
        s.from_block = Some(block_number);
        s
    }

    /// Adds a topic position that matches any topic.
    pub fn any_match(self) -> (res: Self)
        ensures
            res.deep_view() == (self.deep_view().0, self.deep_view().1, self.deep_view().2.push(
                Seq::<Seq<u8>>::empty(),
            )),
    {
        let mut s = self;
        let e: Vec<EvmEventTopic> = Vec::new();
        assert(e.deep_view() =~= Seq::<Seq<u8>>::empty());
        s.topics.push(e);
        assert(s.topics.deep_view() =~= self.topics.deep_view().push(Seq::<Seq<u8>>::empty()));
        s
    }

    /// Adds a topic position that matches exactly the given topic.
    pub fn exact_match(self, topic: EvmEventTopic) -> (res: Self)
        ensures
            res.deep_view() == (self.deep_view().0, self.deep_view().1, self.deep_view().2.push(
                seq![topic@],
            )),
    {
        let mut s = self;
        let one: Vec<EvmEventTopic> = vec![topic];
        assert(topic.deep_view() =~= topic@);
        assert(one.deep_view() =~= seq![topic@]);
        s.topics.push(one);
        assert(s.topics.deep_view() =~= self.topics.deep_view().push(seq![topic@]));
        s
    }

    /// Adds a topic position that matches any of the given topics.
    pub fn one_of_match(self, topics: Vec<EvmEventTopic>) -> (res: Self)
        ensures
            res.deep_view() == (self.deep_view().0, self.deep_view().1, self.deep_view().2.push(
                topics.deep_view(),
            )),
    {
        let mut s = self;
        let ghost t = topics.deep_view();
        s.topics.push(topics);
        assert(s.topics.deep_view() =~= self.topics.deep_view().push(t));
        s
    }

    /// Builds the filter; without a first block it starts at block 0. A filter
    /// has at most four topic positions.
    pub fn build(self) -> (res: EvmEventFilter)
        requires
            self.deep_view().2.len() <= 4,
        ensures
            res.deep_view() == (
                self.deep_view().0,
                match self.deep_view().1 {
                    None => Seq::new(32, |i: int| 0u8),
                    Some(b) => b,
                },
                self.deep_view().2,
            ),
    {
        let from_block = match self.from_block {
            None => U256 { bytes: [0u8; 32] },
            Some(b) => b,
        };
        proof {
            if self.from_block is None {
                assert(from_block.bytes@ =~= Seq::new(32, |i: int| 0u8));
            }
        }
        EvmEventFilter { address: self.address, from_block, topics: self.topics }
    }
}

/// One step of building an event filter: a topic position added with the
/// given topic filter (`any_match`, `exact_match` or `one_of_match`), or the
/// first block set (`filter_from_block`).
pub enum FilterStep {
    /// A topic position with the given topic filter.
    Topic(Seq<Seq<u8>>),
    /// The first block, least significant byte first.
    FromBlock(Seq<u8>),
}

/// The topic filters that steps add, in order.
pub open spec fn steps_topics(steps: Seq<FilterStep>) -> Seq<Seq<Seq<u8>>>
    decreases steps.len(),
{
    if steps.len() == 0 {
        Seq::empty()
    } else {
        match steps.last() {
            FilterStep::Topic(t) => steps_topics(steps.drop_last()).push(t),
            FilterStep::FromBlock(_) => steps_topics(steps.drop_last()),
        }
    }
}

/// The last block that steps set, if any.
pub open spec fn steps_block(steps: Seq<FilterStep>) -> Option<Seq<u8>>
    decreases steps.len(),
{
    if steps.len() == 0 {
        None
    } else {
        match steps.last() {
            FilterStep::FromBlock(b) => Some(b),
            FilterStep::Topic(_) => steps_block(steps.drop_last()),
        }
    }
}

/// What one builder step does to the builder's view, as the steps' contracts
/// give it.
pub open spec fn filter_step(
    before: (Seq<u8>, Option<Seq<u8>>, Seq<Seq<Seq<u8>>>),
    after: (Seq<u8>, Option<Seq<u8>>, Seq<Seq<Seq<u8>>>),
    step: FilterStep,
) -> bool {
    &&& after.0 == before.0
    &&& match step {
        FilterStep::Topic(t) => after.1 == before.1 && after.2 == before.2.push(t),
        FilterStep::FromBlock(b) => after.1 == Some(b) && after.2 == before.2,
    }
}

/// A filter built by `EvmEventFilter::builder(address)`, then any sequence of
/// steps (`any_match`, `exact_match`, `one_of_match`, `filter_from_block`),
/// then `build`, has the address, the topic filters in the order they were
/// added, and the last block given (block 0 where none was). `states` are the
/// builder's views after `builder` and after each step.
pub proof fn law_filter_builder_chain(
    address: Seq<u8>,
    steps: Seq<FilterStep>,
    states: Seq<(Seq<u8>, Option<Seq<u8>>, Seq<Seq<Seq<u8>>>)>,
    built: EvmEventFilterView,
)
    requires
        states.len() == steps.len() + 1,
        states[0] == (address, None::<Seq<u8>>, Seq::<Seq<Seq<u8>>>::empty()),
        forall|i: int| 0 <= i < steps.len() ==> filter_step(states[i], #[trigger] states[i + 1], steps[i]),
        built == (
            states.last().0,
            match states.last().1 {
                None => Seq::new(32, |i: int| 0u8),
                Some(b) => b,
            },
            states.last().2,
        ),
    ensures
        built == (
            address,
            match steps_block(steps) {
                None => Seq::new(32, |i: int| 0u8),
                Some(b) => b,
            },
            steps_topics(steps),
        ),
{
    lemma_filter_states(address, steps, states, steps.len() as int);
    assert(steps.take(steps.len() as int) =~= steps);
}

proof fn lemma_filter_states(
    address: Seq<u8>,
    steps: Seq<FilterStep>,
    states: Seq<(Seq<u8>, Option<Seq<u8>>, Seq<Seq<Seq<u8>>>)>,
    i: int,
)
    requires
        states.len() == steps.len() + 1,
        states[0] == (address, None::<Seq<u8>>, Seq::<Seq<Seq<u8>>>::empty()),
        forall|j: int| 0 <= j < steps.len() ==> filter_step(states[j], #[trigger] states[j + 1], steps[j]),
        0 <= i <= steps.len(),
    ensures
        states[i] == (address, steps_block(steps.take(i)), steps_topics(steps.take(i))),
    decreases i,
{
    if i == 0 {
        assert(steps.take(0) =~= Seq::<FilterStep>::empty());
    } else {
        lemma_filter_states(address, steps, states, i - 1);
        assert(states[i] == states[(i - 1) + 1]);
        assert(steps.take(i).drop_last() =~= steps.take(i - 1));
        assert(steps.take(i).last() == steps[i - 1]);
    }
}

/// The id of a subscription to EVM events.
#[derive(PartialEq, Eq, Structural, Debug, Clone, Copy)]
#[non_exhaustive]
pub struct EventSubscriptionId {
    raw_id: i32,
}

/// A subscription to the events of an EVM contract.
#[derive(Debug)]
#[non_exhaustive]
pub struct EventSubscription {
    /// The id of the subscription.
    pub subscription_id: EventSubscriptionId,
    /// Whether the subscription is active.
    pub is_active: bool,
    /// The chain of the contract.
    pub chain_id: EvmChainId,
    /// The address of the contract.
    pub contract_address: EvmAddress,
    /// The block from which events are received.
    pub from_block: U256,
    /// The topic filters.
    pub topics: Vec<EvmEventTopicFilter>,
}

/// The id of an EVM event that arrived.
#[derive(PartialEq, Eq, Structural, Debug, Clone, Copy)]
#[non_exhaustive]
pub struct ExternalEventId {
    raw_id: i32,
}

/// An EVM event that arrived for a subscription.
#[derive(Debug)]
#[non_exhaustive]
pub struct ExternalEvent {
    /// The subscription that the event arrived for.
    pub subscription_id: EventSubscriptionId,
    /// The id of the event.
    pub event_id: ExternalEventId,
    /// The data of the event.
    pub data: Vec<u8>,
    /// The topics of the event.
    pub topics: Vec<EvmEventTopic>,
}

impl DeepView for EventSubscriptionId {
    type V = i32;

    closed spec fn deep_view(&self) -> i32 {
        self.raw_id
    }
}

impl ReadRPC for EventSubscriptionId {
    open spec fn rpc_parse(data: Seq<u8>) -> Option<(i32, nat)> {
        <i32 as ReadRPC>::rpc_parse(data)
    }

    fn rpc_read_from(reader: &mut &[u8]) -> (res: Self) {
        let raw_id = <i32 as ReadRPC>::rpc_read_from(reader);
        EventSubscriptionId { raw_id }
    }
}

impl WriteRPC for EventSubscriptionId {
    /// The id, 4 bytes big-endian.
    open spec fn rpc_bytes(&self) -> Seq<u8> {
        self.deep_view().rpc_bytes()
    }

    open spec fn rpc_representable(&self) -> bool {
        true
    }

    fn rpc_write_to(&self, writer: &mut Vec<u8>) {
        self.raw_id.rpc_write_to(writer);
    }
}

impl RpcRoundtrip for EventSubscriptionId {
    proof fn lemma_rpc_roundtrip(&self, rest: Seq<u8>) {
        self.raw_id.lemma_rpc_roundtrip(rest);
    }
}

impl DeepView for ExternalEventId {
    type V = i32;

    closed spec fn deep_view(&self) -> i32 {
        self.raw_id
    }
}

impl ReadRPC for ExternalEventId {
    open spec fn rpc_parse(data: Seq<u8>) -> Option<(i32, nat)> {
        <i32 as ReadRPC>::rpc_parse(data)
    }

    fn rpc_read_from(reader: &mut &[u8]) -> (res: Self) {
        let raw_id = <i32 as ReadRPC>::rpc_read_from(reader);
        ExternalEventId { raw_id }
    }
}

impl WriteRPC for ExternalEventId {
    /// The id, 4 bytes big-endian.
    open spec fn rpc_bytes(&self) -> Seq<u8> {
        self.deep_view().rpc_bytes()
    }

    open spec fn rpc_representable(&self) -> bool {
        true
    }

    fn rpc_write_to(&self, writer: &mut Vec<u8>) {
        self.raw_id.rpc_write_to(writer);
    }
}

impl RpcRoundtrip for ExternalEventId {
    proof fn lemma_rpc_roundtrip(&self, rest: Seq<u8>) {
        self.raw_id.lemma_rpc_roundtrip(rest);
    }
}

/// The view of a subscription: its fields in order.
pub type EventSubscriptionView = (i32, bool, Seq<char>, Seq<u8>, Seq<u8>, Seq<Seq<Seq<u8>>>);

impl DeepView for EventSubscription {
    type V = EventSubscriptionView;

    open spec fn deep_view(&self) -> EventSubscriptionView {
        (
            self.subscription_id.deep_view(),
            self.is_active.deep_view(),
            self.chain_id.deep_view(),
            self.contract_address.deep_view(),
            self.from_block.deep_view(),
            self.topics.deep_view(),
        )
    }
}

impl ReadRPC for EventSubscription {
    /// The fields in order, each in its RPC format.
    open spec fn rpc_parse(data: Seq<u8>) -> Option<(EventSubscriptionView, nat)> {
        match <EventSubscriptionId as ReadRPC>::rpc_parse(data) {
            None => None,
            Some((v1, n1)) => match <bool as ReadRPC>::rpc_parse(data.skip(n1 as int)) {
                None => None,
                Some((v2, n2)) => match <EvmChainId as ReadRPC>::rpc_parse(data.skip((n1 + n2) as int)) {
                    None => None,
                    Some((v3, n3)) => match <EvmAddress as ReadRPC>::rpc_parse(data.skip((n1 + n2 + n3) as int)) {
                        None => None,
                        Some((v4, n4)) => match <U256 as ReadRPC>::rpc_parse(data.skip((n1 + n2 + n3 + n4) as int)) {
                            None => None,
                            Some((v5, n5)) => match <Vec<EvmEventTopicFilter> as ReadRPC>::rpc_parse(data.skip((n1 + n2 + n3 + n4 + n5) as int)) {
                                None => None,
                                Some((v6, n6)) => Some(((v1, v2, v3, v4, v5, v6), n1 + n2 + n3 + n4 + n5 + n6)),
                            },
                        },
                    },
                },
            },
        }
    }

    fn rpc_read_from(reader: &mut &[u8]) -> (res: Self) {
        let ghost d0 = reader@;
        let subscription_id = <EventSubscriptionId as ReadRPC>::rpc_read_from(reader);
        let ghost d1 = reader@;
        let ghost n1 = <EventSubscriptionId as ReadRPC>::rpc_parse(d0)->Some_0.1;
        let is_active = <bool as ReadRPC>::rpc_read_from(reader);
        let ghost d2 = reader@;
        let ghost n2 = <bool as ReadRPC>::rpc_parse(d1)->Some_0.1;
        assert(d2 =~= d0.skip((n1 + n2) as int));
        let chain_id = <EvmChainId as ReadRPC>::rpc_read_from(reader);
        let ghost d3 = reader@;
        let ghost n3 = <EvmChainId as ReadRPC>::rpc_parse(d2)->Some_0.1;
        assert(d3 =~= d0.skip((n1 + n2 + n3) as int));
        let contract_address = <EvmAddress as ReadRPC>::rpc_read_from(reader);
        let ghost d4 = reader@;
        let ghost n4 = <EvmAddress as ReadRPC>::rpc_parse(d3)->Some_0.1;
        assert(d4 =~= d0.skip((n1 + n2 + n3 + n4) as int));
        let from_block = <U256 as ReadRPC>::rpc_read_from(reader);
        let ghost d5 = reader@;
        let ghost n5 = <U256 as ReadRPC>::rpc_parse(d4)->Some_0.1;
        assert(d5 =~= d0.skip((n1 + n2 + n3 + n4 + n5) as int));
        let topics = <Vec<EvmEventTopicFilter> as ReadRPC>::rpc_read_from(reader);
        let ghost d6 = reader@;
        let ghost n6 = <Vec<EvmEventTopicFilter> as ReadRPC>::rpc_parse(d5)->Some_0.1;
        assert(d6 =~= d0.skip((n1 + n2 + n3 + n4 + n5 + n6) as int));
        EventSubscription {
            subscription_id,
            is_active,
            chain_id,
            contract_address,
            from_block,
            topics,
        }
    }
}

impl WriteRPC for EventSubscription {
    open spec fn rpc_bytes(&self) -> Seq<u8> {
        self.subscription_id.rpc_bytes()
            + self.is_active.rpc_bytes()
            + self.chain_id.rpc_bytes()
            + self.contract_address.rpc_bytes()
            + self.from_block.rpc_bytes()
            + self.topics.rpc_bytes()
    }

    open spec fn rpc_representable(&self) -> bool {
        &&& self.subscription_id.rpc_representable()
        &&& self.is_active.rpc_representable()
        &&& self.chain_id.rpc_representable()
        &&& self.contract_address.rpc_representable()
        &&& self.from_block.rpc_representable()
        &&& self.topics.rpc_representable()
    }

    fn rpc_write_to(&self, writer: &mut Vec<u8>) {
        self.subscription_id.rpc_write_to(writer);
        self.is_active.rpc_write_to(writer);
        self.chain_id.rpc_write_to(writer);
        self.contract_address.rpc_write_to(writer);
        self.from_block.rpc_write_to(writer);
        self.topics.rpc_write_to(writer);
        assert(writer@ =~= old(writer)@ + self.rpc_bytes());
    }
}

impl RpcRoundtrip for EventSubscription {
    #[verifier::spinoff_prover]
    #[verifier::rlimit(60)]
    proof fn lemma_rpc_roundtrip(&self, rest: Seq<u8>) {
        let b1 = self.subscription_id.rpc_bytes();
        let b2 = self.is_active.rpc_bytes();
        let b3 = self.chain_id.rpc_bytes();
        let b4 = self.contract_address.rpc_bytes();
        let b5 = self.from_block.rpc_bytes();
        let b6 = self.topics.rpc_bytes();
        assert(b1 + b2 + b3 + b4 + b5 + b6 + rest =~= b1 + (b2 + (b3 + (b4 + (b5 + (b6 + rest))))));
        self.subscription_id.lemma_rpc_roundtrip((b2 + (b3 + (b4 + (b5 + (b6 + rest))))));
        assert((b1 + (b2 + (b3 + (b4 + (b5 + (b6 + rest)))))).skip((b1.len()) as int) =~= (b2 + (b3 + (b4 + (b5 + (b6 + rest))))));
        self.is_active.lemma_rpc_roundtrip((b3 + (b4 + (b5 + (b6 + rest)))));
        assert((b1 + (b2 + (b3 + (b4 + (b5 + (b6 + rest)))))).skip((b1.len() + b2.len()) as int) =~= (b3 + (b4 + (b5 + (b6 + rest)))));
        self.chain_id.lemma_rpc_roundtrip((b4 + (b5 + (b6 + rest))));
        assert((b1 + (b2 + (b3 + (b4 + (b5 + (b6 + rest)))))).skip((b1.len() + b2.len() + b3.len()) as int) =~= (b4 + (b5 + (b6 + rest))));
        self.contract_address.lemma_rpc_roundtrip((b5 + (b6 + rest)));
        assert((b1 + (b2 + (b3 + (b4 + (b5 + (b6 + rest)))))).skip((b1.len() + b2.len() + b3.len() + b4.len()) as int) =~= (b5 + (b6 + rest)));
        self.from_block.lemma_rpc_roundtrip((b6 + rest));
        assert((b1 + (b2 + (b3 + (b4 + (b5 + (b6 + rest)))))).skip((b1.len() + b2.len() + b3.len() + b4.len() + b5.len()) as int) =~= (b6 + rest));
        self.topics.lemma_rpc_roundtrip(rest);
    }
}

/// The view of an external event: its fields in order.
pub type ExternalEventView = (i32, i32, Seq<u8>, Seq<Seq<u8>>);

impl DeepView for ExternalEvent {
    type V = ExternalEventView;

    open spec fn deep_view(&self) -> ExternalEventView {
        (self.subscription_id.deep_view(), self.event_id.deep_view(), self.data.deep_view(), self.topics.deep_view())
    }
}

impl ReadRPC for ExternalEvent {
    /// The fields in order, each in its RPC format.
    open spec fn rpc_parse(data: Seq<u8>) -> Option<(ExternalEventView, nat)> {
        match <EventSubscriptionId as ReadRPC>::rpc_parse(data) {
            None => None,
            Some((v1, n1)) => match <ExternalEventId as ReadRPC>::rpc_parse(data.skip(n1 as int)) {
                None => None,
                Some((v2, n2)) => match <Vec<u8> as ReadRPC>::rpc_parse(data.skip((n1 + n2) as int)) {
                    None => None,
                    Some((v3, n3)) => match <Vec<EvmEventTopic> as ReadRPC>::rpc_parse(data.skip((n1 + n2 + n3) as int)) {
                        None => None,
                        Some((v4, n4)) => Some(((v1, v2, v3, v4), n1 + n2 + n3 + n4)),
                    },
                },
            },
        }
    }

    fn rpc_read_from(reader: &mut &[u8]) -> (res: Self) {
        let ghost d0 = reader@;
        let subscription_id = <EventSubscriptionId as ReadRPC>::rpc_read_from(reader);
        let ghost d1 = reader@;
        let ghost n1 = <EventSubscriptionId as ReadRPC>::rpc_parse(d0)->Some_0.1;
        let event_id = <ExternalEventId as ReadRPC>::rpc_read_from(reader);
        let ghost d2 = reader@;
        let ghost n2 = <ExternalEventId as ReadRPC>::rpc_parse(d1)->Some_0.1;
        assert(d2 =~= d0.skip((n1 + n2) as int));
        let data = <Vec<u8> as ReadRPC>::rpc_read_from(reader);
        let ghost d3 = reader@;
        let ghost n3 = <Vec<u8> as ReadRPC>::rpc_parse(d2)->Some_0.1;
        assert(d3 =~= d0.skip((n1 + n2 + n3) as int));
        let topics = <Vec<EvmEventTopic> as ReadRPC>::rpc_read_from(reader);
        let ghost d4 = reader@;
        let ghost n4 = <Vec<EvmEventTopic> as ReadRPC>::rpc_parse(d3)->Some_0.1;
        assert(d4 =~= d0.skip((n1 + n2 + n3 + n4) as int));
        ExternalEvent { subscription_id, event_id, data, topics }
    }
}

impl WriteRPC for ExternalEvent {
    open spec fn rpc_bytes(&self) -> Seq<u8> {
        self.subscription_id.rpc_bytes()
            + self.event_id.rpc_bytes()
            + self.data.rpc_bytes()
            + self.topics.rpc_bytes()
    }

    open spec fn rpc_representable(&self) -> bool {
        &&& self.subscription_id.rpc_representable()
        &&& self.event_id.rpc_representable()
        &&& self.data.rpc_representable()
        &&& self.topics.rpc_representable()
    }

    fn rpc_write_to(&self, writer: &mut Vec<u8>) {
        self.subscription_id.rpc_write_to(writer);
        self.event_id.rpc_write_to(writer);
        self.data.rpc_write_to(writer);
        self.topics.rpc_write_to(writer);
        assert(writer@ =~= old(writer)@ + self.rpc_bytes());
    }
}

impl RpcRoundtrip for ExternalEvent {
    proof fn lemma_rpc_roundtrip(&self, rest: Seq<u8>) {
        let b1 = self.subscription_id.rpc_bytes();
        let b2 = self.event_id.rpc_bytes();
        let b3 = self.data.rpc_bytes();
        let b4 = self.topics.rpc_bytes();
        assert(b1 + b2 + b3 + b4 + rest =~= b1 + (b2 + (b3 + (b4 + rest))));
        self.subscription_id.lemma_rpc_roundtrip((b2 + (b3 + (b4 + rest))));
        assert((b1 + (b2 + (b3 + (b4 + rest)))).skip((b1.len()) as int) =~= (b2 + (b3 + (b4 + rest))));
        self.event_id.lemma_rpc_roundtrip((b3 + (b4 + rest)));
        assert((b1 + (b2 + (b3 + (b4 + rest)))).skip((b1.len() + b2.len()) as int) =~= (b3 + (b4 + rest)));
        self.data.lemma_rpc_roundtrip((b4 + rest));
        assert((b1 + (b2 + (b3 + (b4 + rest)))).skip((b1.len() + b2.len() + b3.len()) as int) =~= (b4 + rest));
        self.topics.lemma_rpc_roundtrip(rest);
    }
}

} // verus!
