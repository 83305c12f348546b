//! The buffer in which a contract writes the result of an invocation: its
//! state, its events and its zero-knowledge changes, each in a section of its
//! own.
use vstd::prelude::*;

use crate::events::EventGroup;
use crate::traits::{be_bytes, write_uint_be, ReadWriteState, WriteRPC};
use crate::zk::{SecretBinaryFixedSize, ZkInputDef, ZkStateChange};

verus! {

/// The id of the section holding the state.
pub open spec fn section_state() -> u8 {
    0x01
}

/// The id of the section holding the events.
pub open spec fn section_events() -> u8 {
    0x02
}

/// The id of the section holding the zero-knowledge state changes.
pub open spec fn section_zk_state_change() -> u8 {
    0x11
}

/// The id of the section holding the definition of a zero-knowledge input.
pub open spec fn section_zk_input_def() -> u8 {
    0x12
}

/// A section: its id, the length of its data in 4 bytes, most significant
/// first, and its data.
pub open spec fn section_bytes(id: u8, data: Seq<u8>) -> Seq<u8> {
    seq![id] + be_bytes((data.len() as u32) as nat, 4) + data
}

/// The result of an invocation: 4 bytes for the length of what follows, then
/// sections in increasing order of their ids.
///
/// ### Fields:
/// * `data`: the bytes written so far; the first 4 are set when the buffer is
///   finalized.
/// * `next_allowed_section_id`: the least id that the next section may have.
#[non_exhaustive]
pub struct ContractResultBuffer {
    /// The bytes written so far.
    pub data: Vec<u8>,
    /// The least id that the next section may have.
    pub next_allowed_section_id: u8,
}

impl ContractResultBuffer {
    /// An empty result: the 4 bytes of the length, and no section.
    pub fn new() -> (res: Self)
        ensures
            res.data@ == seq![0u8, 0u8, 0u8, 0u8],
            res.next_allowed_section_id == 0,
    {
        let mut data: Vec<u8> = Vec::new();
        write_uint_be(&mut data, 0, 4);
        proof {
            reveal_with_fuel(crate::traits::le_bytes, 5);
            assert(data@ =~= seq![0u8, 0u8, 0u8, 0u8]);
        }
        Self { data, next_allowed_section_id: 0 }
    }

    /// Writes a section. Sections must come in increasing order of their ids.
    fn write_section(&mut self, section_id: u8, section_data: &[u8])
        requires
            old(self).next_allowed_section_id <= section_id < 255,
        ensures
            final(self).data@ == old(self).data@ + section_bytes(section_id, section_data@),
            final(self).next_allowed_section_id == section_id + 1,
    {
        self.next_allowed_section_id = section_id + 1;
        self.data.push(section_id);
        let data_length = section_data.len() as u32;
        write_uint_be(&mut self.data, data_length as u128, 4);
        crate::traits::write_bytes(&mut self.data, section_data);
        assert(self.data@ =~= old(self).data@ + section_bytes(section_id, section_data@));
    }

    /// Writes the state of the contract in the State format; nothing for a state
    /// of a type of size zero.
    pub fn write_state<S: ReadWriteState>(&mut self, state: S)
        requires
            vstd::layout::size_of::<S>() != 0 ==> old(self).next_allowed_section_id <= section_state(),
        ensures
            vstd::layout::size_of::<S>() == 0 ==> final(self).data@ == old(self).data@
                && final(self).next_allowed_section_id == old(self).next_allowed_section_id,
            vstd::layout::size_of::<S>() != 0 ==> final(self).data@ == old(self).data@ + section_bytes(
                section_state(),
                state.state_bytes(),
            ) && final(self).next_allowed_section_id == section_state() + 1,
    {
        if core::mem::size_of::<S>() == 0 {
            return;
        }
        let mut buf: Vec<u8> = Vec::new();
        state.state_write_to(&mut buf);
        assert(buf@ =~= state.state_bytes());
        self.write_section(0x01, buf.as_slice());
    }

    /// Writes the events of the invocation; nothing where there are none.
    pub fn write_events(&mut self, events: Vec<EventGroup>)
        requires
            events@.len() > 0 ==> old(self).next_allowed_section_id <= section_events(),
        ensures
            events@.len() == 0 ==> final(self).data@ == old(self).data@
                && final(self).next_allowed_section_id == old(self).next_allowed_section_id,
            events@.len() > 0 ==> final(self).data@ == old(self).data@ + section_bytes(
                section_events(),
                events.rpc_bytes(),
            ) && final(self).next_allowed_section_id == section_events() + 1,
    {
        if events.len() == 0 {
            return;
        }
        let mut buf: Vec<u8> = Vec::new();
        events.rpc_write_to(&mut buf);
        assert(buf@ =~= events.rpc_bytes());
        self.write_section(0x02, buf.as_slice());
    }

    /// Writes the definition of a zero-knowledge input.
    pub fn write_zk_input_def_result<MetadataT: ReadWriteState, SecretT: SecretBinaryFixedSize>(
        &mut self,
        declaration: ZkInputDef<MetadataT, SecretT>,
    )
        requires
            old(self).next_allowed_section_id <= section_zk_input_def(),
        ensures
            final(self).data@ == old(self).data@ + section_bytes(
                section_zk_input_def(),
                declaration.rpc_bytes(),
            ),
            final(self).next_allowed_section_id == section_zk_input_def() + 1,
    {
        let mut buf: Vec<u8> = Vec::new();
        declaration.rpc_write_to(&mut buf);
        assert(buf@ =~= declaration.rpc_bytes());
        self.write_section(0x12, buf.as_slice());
    }

    /// Writes the zero-knowledge state changes of the invocation.
    pub fn write_zk_state_change(&mut self, changes: Vec<ZkStateChange>)
        requires
            old(self).next_allowed_section_id <= section_zk_state_change(),
        ensures
            final(self).data@ == old(self).data@ + section_bytes(
                section_zk_state_change(),
                changes.rpc_bytes(),
            ),
            final(self).next_allowed_section_id == section_zk_state_change() + 1,
    {
        let mut buf: Vec<u8> = Vec::new();
        changes.rpc_write_to(&mut buf);
        assert(buf@ =~= changes.rpc_bytes());
        self.write_section(0x11, buf.as_slice());
    }

    /// The finished result: the length of what follows the first 4 bytes is
    /// written into them, most significant first.
    pub fn finalize_result_buffer(self) -> (res: Vec<u8>)
        requires
            self.data@.len() >= 4,
        ensures
            res@ == be_bytes(((self.data@.len() - 4) as u32) as nat, 4) + self.data@.skip(4),
    {
        let ghost d = self.data@;
        let mut buf = self.data;
        let payload_len = (buf.len() - 4) as u32;
        let mut len_bytes: Vec<u8> = Vec::new();
        write_uint_be(&mut len_bytes, payload_len as u128, 4);
        proof {
            crate::traits::lemma_le_bytes_len(payload_len as nat, 4);
        }
        let mut i: usize = 0;
        while i < 4
            invariant
                i <= 4,
                d.len() >= 4,
                len_bytes@ == be_bytes(payload_len as nat, 4),
                len_bytes@.len() == 4,
                buf@.len() == d.len(),
                forall|j: int| 0 <= j < i ==> buf@[j] == len_bytes@[j],
                forall|j: int| 4 <= j < buf@.len() ==> buf@[j] == d[j],
            decreases 4 - i,
        {
            buf.set(i, len_bytes[i]);
            i = i + 1;
        }
        assert(buf@ =~= len_bytes@ + d.skip(4));
        buf
    }
}

/// The result's sections have fixed ids: 0x01 for the state, 0x02 for the
/// events, 0x11 for zero-knowledge state changes, 0x12 for a zero-knowledge
/// input definition. A section is its id, then the length of its data (4 bytes,
/// most significant first, reading back as that length), then the data.
pub proof fn law_result_section_layout(id: u8, data: Seq<u8>)
    requires
        data.len() <= u32::MAX,
    ensures
        section_state() == 0x01u8,
        section_events() == 0x02u8,
        section_zk_state_change() == 0x11u8,
        section_zk_input_def() == 0x12u8,
        section_bytes(id, data).len() == 5 + data.len(),
        section_bytes(id, data)[0] == id,
        crate::traits::be_value(section_bytes(id, data).subrange(1, 5)) == data.len(),
        section_bytes(id, data).subrange(5, 5 + data.len() as int) == data,
{
    let s = section_bytes(id, data);
    assert(data.len() < crate::traits::pow256(4)) by {
        reveal_with_fuel(crate::traits::pow256, 5);
    }
    crate::traits::lemma_be_roundtrip(data.len(), 4);
    assert(s.subrange(1, 5) =~= be_bytes(data.len(), 4));
    assert(s.subrange(5, 5 + data.len() as int) =~= data);
}

/// The finished result begins with the length of what follows, 4 bytes, most
/// significant first.
pub proof fn law_finished_result_length(data: Seq<u8>)
    requires
        4 <= data.len() <= u32::MAX + 4,
    ensures
        crate::traits::be_value(
            (be_bytes(((data.len() - 4) as u32) as nat, 4) + data.skip(4)).take(4),
        ) == data.len() - 4,
{
    let n = (data.len() - 4) as nat;
    assert(n < crate::traits::pow256(4)) by {
        reveal_with_fuel(crate::traits::pow256, 5);
    }
    crate::traits::lemma_be_roundtrip(n, 4);
    assert((be_bytes(n, 4) + data.skip(4)).take(4) =~= be_bytes(n, 4));
}

} // verus!
