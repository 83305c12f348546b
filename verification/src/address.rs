//! Addresses of accounts and contracts on Partisia BlockChain.
use vstd::prelude::*;

use crate::key_order::{compare_byte_slices, seq_lex_lt, lemma_seq_lex_order, KeyOrder, OrderedKey};
use crate::traits::{read_uint_le, ReadRPC, ReadWriteState, RpcRoundtrip, StateCanonical, WriteRPC};

pub use crate::shortname::{Shortname, ShortnameCallback};

verus! {

/// Appends a character to a string with `String::push`. Claimed of the std
/// function: the string's characters are those before, followed by `c`.
#[verifier::external_body]
pub(crate) fn push_char(s: &mut String, c: char)
    ensures
        final(s)@ == old(s)@.push(c),
{
    s.push(c);
}

/// Indicates whether an [`Address`] identifies a user account or a contract.
///
/// ## Serialization
///
/// Serializable with both RPC format and State format, guaranteed identical representation:
/// the one byte of [`AddressType::discriminant`].
#[derive(PartialEq, Eq, Structural, Debug, Clone, Copy, PartialOrd, Ord, Hash)]
pub enum AddressType {
    /// Specifies that the [`Address`] identifies an end user or service account.
    ///
    /// Address starts with `0x00`.
    Account,
    /// Specifies that the [`Address`] identifies a system contract.
    ///
    /// Address starts with `0x01`.
    SystemContract,
    /// Specifies that the [`Address`] identifies a standard smart contract.
    ///
    /// Address starts with `0x02`.
    PublicContract,
    /// Specifies that the [`Address`] identifies a zero knowledge smart contract.
    ///
    /// Address starts with `0x03`.
    ZkContract,
    /// Specifies that the [`Address`] identifies a governance system contract.
    ///
    /// Address starts with `0x04`.
    GoveranceContract,
}

/// The byte that an address of the given type starts with.
pub open spec fn address_type_byte(t: AddressType) -> u8 {
    match t {
        AddressType::Account => 0x00,
        AddressType::SystemContract => 0x01,
        AddressType::PublicContract => 0x02,
        AddressType::ZkContract => 0x03,
        AddressType::GoveranceContract => 0x04,
    }
}

/// The address type that starts with the given byte, if any.
pub open spec fn address_type_of_byte(b: u8) -> Option<AddressType> {
    if b == 0x00 {
        Some(AddressType::Account)
    } else if b == 0x01 {
        Some(AddressType::SystemContract)
    } else if b == 0x02 {
        Some(AddressType::PublicContract)
    } else if b == 0x03 {
        Some(AddressType::ZkContract)
    } else if b == 0x04 {
        Some(AddressType::GoveranceContract)
    } else {
        None
    }
}

impl AddressType {
    /// The byte that an address of this type starts with.
    pub fn discriminant(&self) -> (res: u8)
        ensures
            res == address_type_byte(*self),
    {
        match self {
            Self::Account => 0x00,
            Self::SystemContract => 0x01,
            Self::PublicContract => 0x02,
            Self::ZkContract => 0x03,
            Self::GoveranceContract => 0x04,
        }
    }

    /// The address type that starts with the given byte; `None` for a byte that
    /// no address type has.
    pub fn from_discriminant(b: u8) -> (res: Option<AddressType>)
        ensures
            res == address_type_of_byte(b),
    {
        if b == 0x00 {
            Some(AddressType::Account)
        } else if b == 0x01 {
            Some(AddressType::SystemContract)
        } else if b == 0x02 {
            Some(AddressType::PublicContract)
        } else if b == 0x03 {
            Some(AddressType::ZkContract)
        } else if b == 0x04 {
            Some(AddressType::GoveranceContract)
        } else {
            None
        }
    }
}

/// Reads one address type byte in either format.
fn read_address_type(reader: &mut &[u8]) -> (res: AddressType)
    requires
        old(reader)@.len() >= 1,
        address_type_of_byte(old(reader)@[0]) is Some,
    ensures
        res == address_type_of_byte(old(reader)@[0])->Some_0,
        final(reader)@ == old(reader)@.skip(1),
{
    let b = read_uint_le(reader, 1);
    assert(old(reader)@.take(1).drop_first().len() == 0);
    assert(crate::traits::le_value(old(reader)@.take(1).drop_first()) == 0);
    let t = AddressType::from_discriminant(b as u8);
    match t {
        Some(t) => t,
        None => AddressType::Account,
    }
}

impl DeepView for AddressType {
    type V = AddressType;

    open spec fn deep_view(&self) -> AddressType {
        *self
    }
}

impl ReadWriteState for AddressType {
    open spec fn state_bytes(&self) -> Seq<u8> {
        seq![address_type_byte(*self)]
    }

    open spec fn state_representable(&self) -> bool {
        true
    }

    open spec fn state_parse(data: Seq<u8>) -> Option<(AddressType, nat)> {
        if data.len() >= 1 && address_type_of_byte(data[0]) is Some {
            Some((address_type_of_byte(data[0])->Some_0, 1))
        } else {
            None
        }
    }

    fn state_read_from(reader: &mut &[u8]) -> (res: Self) {
        read_address_type(reader)
    }

    fn state_write_to(&self, writer: &mut Vec<u8>) {
        writer.push(self.discriminant());
    }

    proof fn lemma_state_roundtrip(&self, rest: Seq<u8>) {
        assert((seq![address_type_byte(*self)] + rest)[0] == address_type_byte(*self));
    }
}

impl ReadRPC for AddressType {
    open spec fn rpc_parse(data: Seq<u8>) -> Option<(AddressType, nat)> {
        Self::state_parse(data)
    }

    fn rpc_read_from(reader: &mut &[u8]) -> (res: Self) {
        read_address_type(reader)
    }
}

impl WriteRPC for AddressType {
    open spec fn rpc_bytes(&self) -> Seq<u8> {
        seq![address_type_byte(*self)]
    }

    open spec fn rpc_representable(&self) -> bool {
        true
    }

    fn rpc_write_to(&self, writer: &mut Vec<u8>) {
        writer.push(self.discriminant());
    }
}

impl RpcRoundtrip for AddressType {
    proof fn lemma_rpc_roundtrip(&self, rest: Seq<u8>) {
        self.lemma_state_roundtrip(rest);
    }
}

/// A unique number that identifies accounts and contracts on Partisia BlockChain.
///
/// The address is composed of an [`AddressType`] indicating whether the address identifies
/// a contract or an end user, and an identifier of 20 bytes, which is the main identifer.
///
/// ## Serialization
///
/// Serializable with both RPC format and State format, guaranteed identical representation:
/// the type's byte followed by the identifier.
#[derive(PartialEq, Eq, Debug, Clone, Copy, PartialOrd, Ord, Hash)]
pub struct Address {
    /// The type of the [`Address`], indicating whether the address identifies an account or
    /// a contract.
    pub address_type: AddressType,
    /// The embedded identifier of the [`Address`].
    pub identifier: [u8; 20],
}

/// The 21 bytes of an address: its type's byte, then its identifier.
pub open spec fn address_bytes(a: (AddressType, Seq<u8>)) -> Seq<u8> {
    seq![address_type_byte(a.0)] + a.1
}

/// The hexadecimal digit of a number below 16, in upper or lower case.
pub open spec fn hex_digit(n: u8, upper: bool) -> char
    recommends
        n < 16,
{
    if n < 10 {
        (48 + n) as char
    } else if upper {
        (55 + n) as char
    } else {
        (87 + n) as char
    }
}

/// Two hexadecimal digits for each byte, most significant first.
pub open spec fn hex_string(bytes: Seq<u8>, upper: bool) -> Seq<char>
    decreases bytes.len(),
{
    if bytes.len() == 0 {
        Seq::empty()
    } else {
        hex_string(bytes.drop_last(), upper).push(hex_digit(bytes.last() / 16, upper)).push(
            hex_digit(bytes.last() % 16, upper),
        )
    }
}

fn hex_digit_char(n: u8, upper: bool) -> (res: char)
    requires
        n < 16,
    ensures
        res == hex_digit(n, upper),
{
    if n < 10 {
        (48u8 + n) as char
    } else if upper {
        (55u8 + n) as char
    } else {
        (87u8 + n) as char
    }
}

/// Writes the hexadecimal digits of `bytes` after `s`.
pub(crate) fn push_hex(s: &mut String, bytes: &[u8], upper: bool)
    ensures
        final(s)@ == old(s)@ + hex_string(bytes@, upper),
{
    let mut i: usize = 0;
    while i < bytes.len()
        invariant
            i <= bytes@.len(),
            s@ == old(s)@ + hex_string(bytes@.take(i as int), upper),
        decreases bytes@.len() - i,
    {
        let b = bytes[i];
        push_char(s, hex_digit_char(b / 16, upper));
        push_char(s, hex_digit_char(b % 16, upper));
        assert(bytes@.take(i + 1).drop_last() =~= bytes@.take(i as int));
        assert(s@ =~= old(s)@ + hex_string(bytes@.take(i + 1), upper));
        i = i + 1;
    }
    assert(bytes@.take(bytes@.len() as int) =~= bytes@);
}

impl View for Address {
    type V = (AddressType, Seq<u8>);

    open spec fn view(&self) -> (AddressType, Seq<u8>) {
        (self.address_type, self.identifier@)
    }
}

impl DeepView for Address {
    type V = (AddressType, Seq<u8>);

    open spec fn deep_view(&self) -> (AddressType, Seq<u8>) {
        (self.address_type, self.identifier@)
    }
}

impl Address {
    /// The address in upper-case hexadecimal: the type's byte, then the identifier.
    pub fn to_upper_hex(&self) -> (res: String)
        ensures
            res@ == hex_string(address_bytes(self@), true),
    {
        self.to_hex(true)
    }

    /// The address in lower-case hexadecimal: the type's byte, then the identifier.
    pub fn to_lower_hex(&self) -> (res: String)
        ensures
            res@ == hex_string(address_bytes(self@), false),
    {
        self.to_hex(false)
    }

    /// The address as it is displayed: in upper-case hexadecimal.
    pub fn to_display_string(&self) -> (res: String)
        ensures
            res@ == hex_string(address_bytes(self@), true),
    {
        self.to_hex(true)
    }

    fn to_hex(&self, upper: bool) -> (res: String)
        ensures
            res@ == hex_string(address_bytes(self@), upper),
    {
        let mut s = String::new();
        let head: [u8; 1] = [self.address_type.discriminant()];
        push_hex(&mut s, head.as_slice(), upper);
        push_hex(&mut s, self.identifier.as_slice(), upper);
        proof {
            let a = address_bytes(self@);
            assert(head@ =~= seq![address_type_byte(self.address_type)]);
            lemma_hex_string_concat(head@, self.identifier@, upper);
            assert(s@ =~= hex_string(a, upper));
        }
        s
    }
}

/// The digits of two byte sequences one after the other are the digits of the
/// two sequences joined.
pub proof fn lemma_hex_string_concat(a: Seq<u8>, b: Seq<u8>, upper: bool)
    ensures
        hex_string(a + b, upper) == hex_string(a, upper) + hex_string(b, upper),
    decreases b.len(),
{
    if b.len() == 0 {
        assert(a + b =~= a);
        assert(hex_string(a, upper) + hex_string(b, upper) =~= hex_string(a, upper));
    } else {
        lemma_hex_string_concat(a, b.drop_last(), upper);
        assert((a + b).drop_last() =~= a + b.drop_last());
        assert((a + b).last() == b.last());
    }
}

/// Reads an address: a type byte, then the 20 identifier bytes.
fn read_address(reader: &mut &[u8]) -> (res: Address)
    requires
        Address::state_parse(old(reader)@) is Some,
    ensures
        res.deep_view() == Address::state_parse(old(reader)@)->Some_0.0,
        final(reader)@ == old(reader)@.skip(21),
{
    let ghost data = old(reader)@;
    let address_type = read_address_type(reader);
    let identifier = <[u8; 20] as ReadWriteState>::state_read_from(reader);
    assert(data.skip(1).skip(20) =~= data.skip(21));
    assert(identifier@ =~= identifier.deep_view());
    Address { address_type, identifier }
}

impl ReadWriteState for Address {
    open spec fn state_bytes(&self) -> Seq<u8> {
        address_bytes(self@)
    }

    open spec fn state_representable(&self) -> bool {
        true
    }

    open spec fn state_parse(data: Seq<u8>) -> Option<((AddressType, Seq<u8>), nat)> {
        if data.len() >= 21 && address_type_of_byte(data[0]) is Some {
            Some(((address_type_of_byte(data[0])->Some_0, data.subrange(1, 21)), 21))
        } else {
            None
        }
    }

    fn state_read_from(reader: &mut &[u8]) -> (res: Self) {
        read_address(reader)
    }

    fn state_write_to(&self, writer: &mut Vec<u8>) {
        writer.push(self.address_type.discriminant());
        self.identifier.state_write_to(writer);
        assert(writer@ =~= old(writer)@ + address_bytes(self@));
    }

    proof fn lemma_state_roundtrip(&self, rest: Seq<u8>) {
        let d = address_bytes(self@) + rest;
        assert(d[0] == address_type_byte(self.address_type));
        assert(d.subrange(1, 21) =~= self.identifier@);
    }
}

impl ReadRPC for Address {
    open spec fn rpc_parse(data: Seq<u8>) -> Option<((AddressType, Seq<u8>), nat)> {
        Self::state_parse(data)
    }

    fn rpc_read_from(reader: &mut &[u8]) -> (res: Self) {
        read_address(reader)
    }
}

impl WriteRPC for Address {
    open spec fn rpc_bytes(&self) -> Seq<u8> {
        address_bytes(self@)
    }

    open spec fn rpc_representable(&self) -> bool {
        true
    }

    fn rpc_write_to(&self, writer: &mut Vec<u8>) {
        self.state_write_to(writer);
    }
}

impl RpcRoundtrip for Address {
    proof fn lemma_rpc_roundtrip(&self, rest: Seq<u8>) {
        self.lemma_state_roundtrip(rest);
    }
}

/// Addresses are ordered by type, then by identifier, byte by byte.
pub open spec fn address_lt(a: (AddressType, Seq<u8>), b: (AddressType, Seq<u8>)) -> bool {
    address_type_byte(a.0) < address_type_byte(b.0) || (a.0 == b.0 && seq_lex_lt(a.1, b.1))
}

impl OrderedKey for Address {
    open spec fn lt_view(a: (AddressType, Seq<u8>), b: (AddressType, Seq<u8>)) -> bool {
        address_lt(a, b)
    }

    proof fn lemma_order(
        a: (AddressType, Seq<u8>),
        b: (AddressType, Seq<u8>),
        c: (AddressType, Seq<u8>),
    ) {
        lemma_seq_lex_order(a.1, b.1, c.1);
        lemma_seq_lex_order(a.1, a.1, a.1);
    }

    fn compare_keys(&self, other: &Self) -> (res: KeyOrder) {
        let x = self.address_type.discriminant();
        let y = other.address_type.discriminant();
        if x < y {
            KeyOrder::Less
        } else if y < x {
            KeyOrder::Greater
        } else {
            proof {
                lemma_seq_lex_order(self.identifier@, other.identifier@, self.identifier@);
            }
            compare_byte_slices(self.identifier.as_slice(), other.identifier.as_slice())
        }
    }
}

/// Addresses and their types are written identically in the State and RPC
/// formats: the type's byte, then the 20 identifier bytes.
pub proof fn law_address_formats_identical(a: Address, t: AddressType)
    ensures
        a.state_bytes() == a.rpc_bytes(),
        a.state_bytes().len() == 21,
        a.state_bytes()[0] == address_type_byte(a.address_type),
        t.state_bytes() == t.rpc_bytes(),
        address_type_of_byte(address_type_byte(t)) == Some(t),
{
}

/// The hexadecimal form of an address has two digits for each of its 21 bytes.
pub proof fn law_address_hex_length(a: Address, upper: bool)
    ensures
        hex_string(address_bytes(a@), upper).len() == 42,
{
    lemma_hex_string_len(address_bytes(a@), upper);
}

/// Each byte gives two digits.
pub proof fn lemma_hex_string_len(bytes: Seq<u8>, upper: bool)
    ensures
        hex_string(bytes, upper).len() == 2 * bytes.len(),
    decreases bytes.len(),
{
    if bytes.len() > 0 {
        lemma_hex_string_len(bytes.drop_last(), upper);
    }
}

impl StateCanonical for AddressType {
    open spec fn view_state_bytes(v: AddressType) -> Seq<u8> {
        v.state_bytes()
    }

    proof fn lemma_bytes_follow_view(&self) {
    }

    proof fn lemma_read_bytes_are_canonical(data: Seq<u8>) {
        if data.len() >= 1 && address_type_of_byte(data[0]) is Some {
            assert(data.take(1) =~= seq![address_type_byte(address_type_of_byte(data[0])->Some_0)]);
        }
    }
}

impl StateCanonical for Address {
    open spec fn view_state_bytes(v: (AddressType, Seq<u8>)) -> Seq<u8> {
        address_bytes(v)
    }

    proof fn lemma_bytes_follow_view(&self) {
    }

    proof fn lemma_read_bytes_are_canonical(data: Seq<u8>) {
        if data.len() >= 21 && address_type_of_byte(data[0]) is Some {
            assert(data.take(21) =~= address_bytes(
                (address_type_of_byte(data[0])->Some_0, data.subrange(1, 21)),
            ));
        }
    }
}

/// Each address type is written as the byte that the host fixes for it: 0 for
/// an account, 1 for a system contract, 2 for a public contract, 3 for a
/// zero-knowledge contract, 4 for a governance contract. Reading that byte gives
/// the type back, and no two types share a byte.
pub proof fn law_address_type_bytes(t: AddressType, other: AddressType)
    ensures
        t is Account ==> address_type_byte(t) == 0u8,
        t is SystemContract ==> address_type_byte(t) == 1u8,
        t is PublicContract ==> address_type_byte(t) == 2u8,
        t is ZkContract ==> address_type_byte(t) == 3u8,
        t is GoveranceContract ==> address_type_byte(t) == 4u8,
        address_type_of_byte(address_type_byte(t)) == Some(t),
        address_type_byte(t) == address_type_byte(other) ==> t == other,
{
}

/// An address is written as its type's byte followed by its identifier.
pub proof fn law_address_layout(a: Address)
    ensures
        a.state_bytes().len() == 21,
        a.state_bytes()[0] == address_type_byte(a.address_type),
        a.state_bytes().subrange(1, 21) == a.identifier@,
        a.rpc_bytes() == a.state_bytes(),
{
    assert(a.state_bytes().subrange(1, 21) =~= a.identifier@);
}

/// A hexadecimal digit is `0` to `9` for the values below ten, then `A` to `F`
/// in upper case or `a` to `f` in lower case.
pub proof fn law_hex_digits(n: u8, upper: bool)
    requires
        n < 16,
    ensures
        n < 10 ==> hex_digit(n, upper) as u32 == 48 + n,
        n >= 10 && upper ==> hex_digit(n, upper) as u32 == 65 + (n - 10),
        n >= 10 && !upper ==> hex_digit(n, upper) as u32 == 97 + (n - 10),
{
}

/// Addresses are kept in order of their type's byte first, then of their
/// identifiers, byte by byte, as byte vectors are.
pub proof fn law_address_order(a: (AddressType, Seq<u8>), b: (AddressType, Seq<u8>))
    ensures
        a.0 != b.0 ==> (<Address as OrderedKey>::lt_view(a, b) <==> address_type_byte(a.0)
            < address_type_byte(b.0)),
        a.0 == b.0 ==> (<Address as OrderedKey>::lt_view(a, b) <==> <Vec<u8> as OrderedKey>::lt_view(
            a.1,
            b.1,
        )),
{
}

} // verus!
