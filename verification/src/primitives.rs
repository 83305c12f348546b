//! Fixed-size byte types of Partisia BlockChain: hashes, keys, signatures and
//! 256-bit numbers.
use vstd::prelude::*;

use crate::shortname::Shortname;
use crate::traits::{
    le_value, read_uint_le, ReadRPC, ReadWriteState, RpcRoundtrip, StateCanonical, WriteRPC,
};

verus! {

/// A hash of 32 bytes, such as the identifier of a transaction.
///
/// ## Serialization
///
/// Serializable with both RPC format and State format, guaranteed identical representation:
/// the 32 bytes as they are.
#[derive(PartialEq, Eq, Debug, Clone, PartialOrd, Ord)]
pub struct Hash {
    /// The bytes.
    pub bytes: [u8; 32],
}

impl DeepView for Hash {
    type V = Seq<u8>;

    open spec fn deep_view(&self) -> Seq<u8> {
        self.bytes@
    }
}

impl ReadWriteState for Hash {
    open spec fn state_bytes(&self) -> Seq<u8> {
        self.bytes@
    }

    open spec fn state_representable(&self) -> bool {
        true
    }

    open spec fn state_parse(data: Seq<u8>) -> Option<(Seq<u8>, nat)> {
        <[u8; 32] as ReadWriteState>::state_parse(data)
    }

    fn state_read_from(reader: &mut &[u8]) -> (res: Self) {
        let bytes = <[u8; 32] as ReadWriteState>::state_read_from(reader);
        assert(bytes@ =~= bytes.deep_view());
        Hash { bytes }
    }

    fn state_write_to(&self, writer: &mut Vec<u8>) {
        self.bytes.state_write_to(writer);
    }

    proof fn lemma_state_roundtrip(&self, rest: Seq<u8>) {
        self.bytes.lemma_state_roundtrip(rest);
        assert(self.bytes@ =~= self.bytes.deep_view());
    }
}

impl ReadRPC for Hash {
    open spec fn rpc_parse(data: Seq<u8>) -> Option<(Seq<u8>, nat)> {
        <[u8; 32] as ReadRPC>::rpc_parse(data)
    }

    fn rpc_read_from(reader: &mut &[u8]) -> (res: Self) {
        let bytes = <[u8; 32] as ReadRPC>::rpc_read_from(reader);
        assert(bytes@ =~= bytes.deep_view());
        Hash { bytes }
    }
}

impl WriteRPC for Hash {
    open spec fn rpc_bytes(&self) -> Seq<u8> {
        self.bytes@
    }

    open spec fn rpc_representable(&self) -> bool {
        true
    }

    fn rpc_write_to(&self, writer: &mut Vec<u8>) {
        self.bytes.rpc_write_to(writer);
    }
}

impl RpcRoundtrip for Hash {
    proof fn lemma_rpc_roundtrip(&self, rest: Seq<u8>) {
        self.bytes.lemma_rpc_roundtrip(rest);
        assert(self.bytes@ =~= self.bytes.deep_view());
    }
}

/// A public key of 33 bytes, used to verify signatures.
///
/// ## Serialization
///
/// Serializable with both RPC format and State format, guaranteed identical representation:
/// the 33 bytes as they are.
#[derive(PartialEq, Eq, Debug, Clone, PartialOrd, Ord)]
pub struct PublicKey {
    /// The bytes.
    pub bytes: [u8; 33],
}

impl DeepView for PublicKey {
    type V = Seq<u8>;

    open spec fn deep_view(&self) -> Seq<u8> {
        self.bytes@
    }
}

impl ReadWriteState for PublicKey {
    open spec fn state_bytes(&self) -> Seq<u8> {
        self.bytes@
    }

    open spec fn state_representable(&self) -> bool {
        true
    }

    open spec fn state_parse(data: Seq<u8>) -> Option<(Seq<u8>, nat)> {
        <[u8; 33] as ReadWriteState>::state_parse(data)
    }

    fn state_read_from(reader: &mut &[u8]) -> (res: Self) {
        let bytes = <[u8; 33] as ReadWriteState>::state_read_from(reader);
        assert(bytes@ =~= bytes.deep_view());
        PublicKey { bytes }
    }

    fn state_write_to(&self, writer: &mut Vec<u8>) {
        self.bytes.state_write_to(writer);
    }

    proof fn lemma_state_roundtrip(&self, rest: Seq<u8>) {
        self.bytes.lemma_state_roundtrip(rest);
        assert(self.bytes@ =~= self.bytes.deep_view());
    }
}

impl ReadRPC for PublicKey {
    open spec fn rpc_parse(data: Seq<u8>) -> Option<(Seq<u8>, nat)> {
        <[u8; 33] as ReadRPC>::rpc_parse(data)
    }

    fn rpc_read_from(reader: &mut &[u8]) -> (res: Self) {
        let bytes = <[u8; 33] as ReadRPC>::rpc_read_from(reader);
        assert(bytes@ =~= bytes.deep_view());
        PublicKey { bytes }
    }
}

impl WriteRPC for PublicKey {
    open spec fn rpc_bytes(&self) -> Seq<u8> {
        self.bytes@
    }

    open spec fn rpc_representable(&self) -> bool {
        true
    }

    fn rpc_write_to(&self, writer: &mut Vec<u8>) {
        self.bytes.rpc_write_to(writer);
    }
}

impl RpcRoundtrip for PublicKey {
    proof fn lemma_rpc_roundtrip(&self, rest: Seq<u8>) {
        self.bytes.lemma_rpc_roundtrip(rest);
        assert(self.bytes@ =~= self.bytes.deep_view());
    }
}

/// A BLS public key of 96 bytes.
///
/// ## Serialization
///
/// Serializable with both RPC format and State format, guaranteed identical representation:
/// the 96 bytes as they are.
#[derive(PartialEq, Eq, Debug, Clone, PartialOrd, Ord)]
pub struct BlsPublicKey {
    /// The bytes.
    pub bytes: [u8; 96],
}

impl DeepView for BlsPublicKey {
    type V = Seq<u8>;

    open spec fn deep_view(&self) -> Seq<u8> {
        self.bytes@
    }
}

impl ReadWriteState for BlsPublicKey {
    open spec fn state_bytes(&self) -> Seq<u8> {
        self.bytes@
    }

    open spec fn state_representable(&self) -> bool {
        true
    }

    open spec fn state_parse(data: Seq<u8>) -> Option<(Seq<u8>, nat)> {
        <[u8; 96] as ReadWriteState>::state_parse(data)
    }

    fn state_read_from(reader: &mut &[u8]) -> (res: Self) {
        let bytes = <[u8; 96] as ReadWriteState>::state_read_from(reader);
        assert(bytes@ =~= bytes.deep_view());
        BlsPublicKey { bytes }
    }

    fn state_write_to(&self, writer: &mut Vec<u8>) {
        self.bytes.state_write_to(writer);
    }

    proof fn lemma_state_roundtrip(&self, rest: Seq<u8>) {
        self.bytes.lemma_state_roundtrip(rest);
        assert(self.bytes@ =~= self.bytes.deep_view());
    }
}

impl ReadRPC for BlsPublicKey {
    open spec fn rpc_parse(data: Seq<u8>) -> Option<(Seq<u8>, nat)> {
        <[u8; 96] as ReadRPC>::rpc_parse(data)
    }

    fn rpc_read_from(reader: &mut &[u8]) -> (res: Self) {
        let bytes = <[u8; 96] as ReadRPC>::rpc_read_from(reader);
        assert(bytes@ =~= bytes.deep_view());
        BlsPublicKey { bytes }
    }
}

impl WriteRPC for BlsPublicKey {
    open spec fn rpc_bytes(&self) -> Seq<u8> {
        self.bytes@
    }

    open spec fn rpc_representable(&self) -> bool {
        true
    }

    fn rpc_write_to(&self, writer: &mut Vec<u8>) {
        self.bytes.rpc_write_to(writer);
    }
}

impl RpcRoundtrip for BlsPublicKey {
    proof fn lemma_rpc_roundtrip(&self, rest: Seq<u8>) {
        self.bytes.lemma_rpc_roundtrip(rest);
        assert(self.bytes@ =~= self.bytes.deep_view());
    }
}

/// A BLS signature of 48 bytes.
///
/// ## Serialization
///
/// Serializable with both RPC format and State format, guaranteed identical representation:
/// the 48 bytes as they are.
#[derive(PartialEq, Eq, Debug, Clone, PartialOrd, Ord)]
pub struct BlsSignature {
    /// The bytes.
    pub bytes: [u8; 48],
}

impl DeepView for BlsSignature {
    type V = Seq<u8>;

    open spec fn deep_view(&self) -> Seq<u8> {
        self.bytes@
    }
}

impl ReadWriteState for BlsSignature {
    open spec fn state_bytes(&self) -> Seq<u8> {
        self.bytes@
    }

    open spec fn state_representable(&self) -> bool {
        true
    }

    open spec fn state_parse(data: Seq<u8>) -> Option<(Seq<u8>, nat)> {
        <[u8; 48] as ReadWriteState>::state_parse(data)
    }

    fn state_read_from(reader: &mut &[u8]) -> (res: Self) {
        let bytes = <[u8; 48] as ReadWriteState>::state_read_from(reader);
        assert(bytes@ =~= bytes.deep_view());
        BlsSignature { bytes }
    }

    fn state_write_to(&self, writer: &mut Vec<u8>) {
        self.bytes.state_write_to(writer);
    }

    proof fn lemma_state_roundtrip(&self, rest: Seq<u8>) {
        self.bytes.lemma_state_roundtrip(rest);
        assert(self.bytes@ =~= self.bytes.deep_view());
    }
}

impl ReadRPC for BlsSignature {
    open spec fn rpc_parse(data: Seq<u8>) -> Option<(Seq<u8>, nat)> {
        <[u8; 48] as ReadRPC>::rpc_parse(data)
    }

    fn rpc_read_from(reader: &mut &[u8]) -> (res: Self) {
        let bytes = <[u8; 48] as ReadRPC>::rpc_read_from(reader);
        assert(bytes@ =~= bytes.deep_view());
        BlsSignature { bytes }
    }
}

impl WriteRPC for BlsSignature {
    open spec fn rpc_bytes(&self) -> Seq<u8> {
        self.bytes@
    }

    open spec fn rpc_representable(&self) -> bool {
        true
    }

    fn rpc_write_to(&self, writer: &mut Vec<u8>) {
        self.bytes.rpc_write_to(writer);
    }
}

impl RpcRoundtrip for BlsSignature {
    proof fn lemma_rpc_roundtrip(&self, rest: Seq<u8>) {
        self.bytes.lemma_rpc_roundtrip(rest);
        assert(self.bytes@ =~= self.bytes.deep_view());
    }
}

/// An unsigned 256-bit number.
///
/// ## Serialization
///
/// In the State format the 32 bytes are written as they are, least significant
/// first; in the RPC format they are written in reverse order, most significant
/// first.
#[derive(PartialEq, Eq, Debug, Clone, PartialOrd, Ord)]
pub struct U256 {
    /// The bytes, least significant first.
    pub bytes: [u8; 32],
}

impl DeepView for U256 {
    type V = Seq<u8>;

    open spec fn deep_view(&self) -> Seq<u8> {
        self.bytes@
    }
}

impl ReadWriteState for U256 {
    open spec fn state_bytes(&self) -> Seq<u8> {
        self.bytes@
    }

    open spec fn state_representable(&self) -> bool {
        true
    }

    open spec fn state_parse(data: Seq<u8>) -> Option<(Seq<u8>, nat)> {
        <[u8; 32] as ReadWriteState>::state_parse(data)
    }

    fn state_read_from(reader: &mut &[u8]) -> (res: Self) {
        let bytes = <[u8; 32] as ReadWriteState>::state_read_from(reader);
        assert(bytes@ =~= bytes.deep_view());
        U256 { bytes }
    }

    fn state_write_to(&self, writer: &mut Vec<u8>) {
        self.bytes.state_write_to(writer);
    }

    proof fn lemma_state_roundtrip(&self, rest: Seq<u8>) {
        self.bytes.lemma_state_roundtrip(rest);
        assert(self.bytes@ =~= self.bytes.deep_view());
    }
}

/// The 32 bytes of `bytes` in reverse order.
fn reversed_32(bytes: &[u8; 32]) -> (res: [u8; 32])
    ensures
        res@ == bytes@.reverse(),
{
    let mut res: [u8; 32] = *bytes;
    let mut i: usize = 0;
    while i < 32
        invariant
            i <= 32,
            res@.len() == 32,
            bytes@.len() == 32,
            forall|j: int| 0 <= j < i ==> res@[j] == bytes@[31 - j],
        decreases 32 - i,
    {
        res[i] = bytes[31 - i];
        i = i + 1;
    }
    assert(res@ =~= bytes@.reverse());
    res
}

impl ReadRPC for U256 {
    open spec fn rpc_parse(data: Seq<u8>) -> Option<(Seq<u8>, nat)> {
        if data.len() >= 32 {
            Some((data.take(32).reverse(), 32))
        } else {
            None
        }
    }

    fn rpc_read_from(reader: &mut &[u8]) -> (res: Self) {
        let read = <[u8; 32] as ReadRPC>::rpc_read_from(reader);
        assert(read@ =~= read.deep_view());
        let bytes = reversed_32(&read);
        U256 { bytes }
    }
}

impl WriteRPC for U256 {
    open spec fn rpc_bytes(&self) -> Seq<u8> {
        self.bytes@.reverse()
    }

    open spec fn rpc_representable(&self) -> bool {
        true
    }

    fn rpc_write_to(&self, writer: &mut Vec<u8>) {
        let bytes = reversed_32(&self.bytes);
        bytes.rpc_write_to(writer);
    }
}

impl RpcRoundtrip for U256 {
    proof fn lemma_rpc_roundtrip(&self, rest: Seq<u8>) {
        let r = self.bytes@.reverse();
        assert((r + rest).take(32) =~= r);
        assert(r.reverse() =~= self.bytes@);
    }
}

/// A signature: a recovery id and the two 32-byte values `r` and `s`.
///
/// ## Serialization
///
/// Serializable with both RPC format and State format, guaranteed identical representation:
/// the recovery id's byte, then `r`, then `s`.
#[derive(PartialEq, Eq, Debug, Clone, PartialOrd, Ord)]
pub struct Signature {
    /// The recovery id.
    pub recovery_id: u8,
    /// The value `r`.
    pub value_r: [u8; 32],
    /// The value `s`.
    pub value_s: [u8; 32],
}

/// The 65 bytes of a signature.
pub open spec fn signature_bytes(v: (u8, Seq<u8>, Seq<u8>)) -> Seq<u8> {
    seq![v.0] + v.1 + v.2
}

/// Reads the 65 bytes of a signature, in either format.
fn read_signature(reader: &mut &[u8]) -> (res: Signature)
    requires
        old(reader)@.len() >= 65,
    ensures
        res.deep_view() == (old(reader)@[0], old(reader)@.subrange(1, 33), old(reader)@.subrange(
            33,
            65,
        )),
        final(reader)@ == old(reader)@.skip(65),
{
    let ghost data = old(reader)@;
    let head = read_uint_le(reader, 1);
    assert(data.take(1).drop_first().len() == 0);
    assert(le_value(data.take(1).drop_first()) == 0);
    let recovery_id = head as u8;
    let value_r = <[u8; 32] as ReadWriteState>::state_read_from(reader);
    let value_s = <[u8; 32] as ReadWriteState>::state_read_from(reader);
    assert(data.skip(1).skip(32).skip(32) =~= data.skip(65));
    assert(data.skip(1).take(32) =~= data.subrange(1, 33));
    assert(data.skip(33).take(32) =~= data.subrange(33, 65));
    assert(data.skip(1).skip(32) =~= data.skip(33));
    assert(value_r@ =~= value_r.deep_view());
    assert(value_s@ =~= value_s.deep_view());
    Signature { recovery_id, value_r, value_s }
}

impl DeepView for Signature {
    type V = (u8, Seq<u8>, Seq<u8>);

    open spec fn deep_view(&self) -> (u8, Seq<u8>, Seq<u8>) {
        (self.recovery_id, self.value_r@, self.value_s@)
    }
}

impl ReadWriteState for Signature {
    open spec fn state_bytes(&self) -> Seq<u8> {
        signature_bytes(self.deep_view())
    }

    open spec fn state_representable(&self) -> bool {
        true
    }

    open spec fn state_parse(data: Seq<u8>) -> Option<((u8, Seq<u8>, Seq<u8>), nat)> {
        if data.len() >= 65 {
            Some(((data[0], data.subrange(1, 33), data.subrange(33, 65)), 65))
        } else {
            None
        }
    }

    fn state_read_from(reader: &mut &[u8]) -> (res: Self) {
        read_signature(reader)
    }

    fn state_write_to(&self, writer: &mut Vec<u8>) {
        writer.push(self.recovery_id);
        self.value_r.state_write_to(writer);
        self.value_s.state_write_to(writer);
        assert(writer@ =~= old(writer)@ + signature_bytes(self.deep_view()));
    }

    proof fn lemma_state_roundtrip(&self, rest: Seq<u8>) {
        let d = signature_bytes(self.deep_view()) + rest;
        assert(d[0] == self.recovery_id);
        assert(d.subrange(1, 33) =~= self.value_r@);
        assert(d.subrange(33, 65) =~= self.value_s@);
    }
}

impl ReadRPC for Signature {
    open spec fn rpc_parse(data: Seq<u8>) -> Option<((u8, Seq<u8>, Seq<u8>), nat)> {
        Self::state_parse(data)
    }

    fn rpc_read_from(reader: &mut &[u8]) -> (res: Self) {
        read_signature(reader)
    }
}

impl WriteRPC for Signature {
    open spec fn rpc_bytes(&self) -> Seq<u8> {
        signature_bytes(self.deep_view())
    }

    open spec fn rpc_representable(&self) -> bool {
        true
    }

    fn rpc_write_to(&self, writer: &mut Vec<u8>) {
        self.state_write_to(writer);
    }
}

impl RpcRoundtrip for Signature {
    proof fn lemma_rpc_roundtrip(&self, rest: Seq<u8>) {
        self.lemma_state_roundtrip(rest);
    }
}

/// The shortname of a contract's init function.
pub open spec fn fn_init_shortname_value() -> u32 {
    0xFFFFFFFF
}

/// Returns the shortname of a contract's init function.
pub fn fn_init_shortname() -> (res: Shortname)
    ensures
        res@ == fn_init_shortname_value(),
{
    Shortname::from_u32(0xFFFFFFFF)
}

/// Hashes, keys and signatures are written identically in the State and RPC
/// formats.
pub proof fn law_byte_types_formats_identical(
    h: Hash,
    p: PublicKey,
    bp: BlsPublicKey,
    bs: BlsSignature,
    s: Signature,
)
    ensures
        h.state_bytes() == h.rpc_bytes(),
        p.state_bytes() == p.rpc_bytes(),
        bp.state_bytes() == bp.rpc_bytes(),
        bs.state_bytes() == bs.rpc_bytes(),
        s.state_bytes() == s.rpc_bytes(),
{
}

/// A 256-bit number is written in the RPC format as its State bytes reversed,
/// most significant byte first.
pub proof fn law_u256_rpc_reverses_state(u: U256)
    ensures
        u.rpc_bytes() == u.state_bytes().reverse(),
        u.rpc_bytes().len() == 32,
{
}

impl StateCanonical for Hash {
    open spec fn view_state_bytes(v: Seq<u8>) -> Seq<u8> {
        v
    }

    proof fn lemma_bytes_follow_view(&self) {
    }

    proof fn lemma_read_bytes_are_canonical(data: Seq<u8>) {
    }
}

impl StateCanonical for PublicKey {
    open spec fn view_state_bytes(v: Seq<u8>) -> Seq<u8> {
        v
    }

    proof fn lemma_bytes_follow_view(&self) {
    }

    proof fn lemma_read_bytes_are_canonical(data: Seq<u8>) {
    }
}

impl StateCanonical for BlsPublicKey {
    open spec fn view_state_bytes(v: Seq<u8>) -> Seq<u8> {
        v
    }

    proof fn lemma_bytes_follow_view(&self) {
    }

    proof fn lemma_read_bytes_are_canonical(data: Seq<u8>) {
    }
}

impl StateCanonical for BlsSignature {
    open spec fn view_state_bytes(v: Seq<u8>) -> Seq<u8> {
        v
    }

    proof fn lemma_bytes_follow_view(&self) {
    }

    proof fn lemma_read_bytes_are_canonical(data: Seq<u8>) {
    }
}

impl StateCanonical for U256 {
    open spec fn view_state_bytes(v: Seq<u8>) -> Seq<u8> {
        v
    }

    proof fn lemma_bytes_follow_view(&self) {
    }

    proof fn lemma_read_bytes_are_canonical(data: Seq<u8>) {
    }
}

impl StateCanonical for Signature {
    open spec fn view_state_bytes(v: (u8, Seq<u8>, Seq<u8>)) -> Seq<u8> {
        signature_bytes(v)
    }

    proof fn lemma_bytes_follow_view(&self) {
    }

    proof fn lemma_read_bytes_are_canonical(data: Seq<u8>) {
        if data.len() >= 65 {
            assert(data.take(65) =~= signature_bytes(
                (data[0], data.subrange(1, 33), data.subrange(33, 65)),
            ));
        }
    }
}

} // verus!
