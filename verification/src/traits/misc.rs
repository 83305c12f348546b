//! The State and RPC formats of `bool`, `Option` and `String`.
use vstd::prelude::*;
use vstd::utf8::{decode_utf8, encode_utf8, encode_utf8_decode_utf8, valid_utf8};
use vstd::string::StringSliceAdditionalSpecFns;

use super::{
    be_bytes, be_value, le_bytes, le_value, lemma_be_roundtrip, lemma_le_roundtrip, pow256,
    read_bytes, read_uint_be, read_uint_le, write_bytes, write_uint_be, write_uint_le, ReadRPC,
    ReadWriteState, RpcRoundtrip, StateCanonical, WriteRPC,
};

verus! {

/// Builds a `String` from bytes with `String::from_utf8`, giving `None` where the
/// bytes are not UTF-8. Claimed of the std function: it succeeds exactly on
/// valid UTF-8, and the string's UTF-8 encoding is then the bytes given.
#[verifier::external_body]
fn string_from_utf8(bytes: Vec<u8>) -> (res: Option<String>)
    ensures
        res is Some <==> valid_utf8(bytes@),
        res matches Some(s) ==> encode_utf8(s@) == bytes@,
{
    String::from_utf8(bytes).ok()
}

/// The byte of a boolean in both formats.
pub open spec fn bool_byte(b: bool) -> u8 {
    if b {
        1
    } else {
        0
    }
}

impl ReadWriteState for bool {
    /// 1 for `true`, 0 for `false`; no other byte is read.
    open spec fn state_bytes(&self) -> Seq<u8> {
        seq![bool_byte(*self)]
    }

    open spec fn state_representable(&self) -> bool {
        true
    }

    open spec fn state_parse(data: Seq<u8>) -> Option<(bool, nat)> {
        if data.len() >= 1 && data[0] <= 1 {
            Some((data[0] == 1, 1))
        } else {
            None
        }
    }

    fn state_read_from(reader: &mut &[u8]) -> (res: bool) {
        let b = read_uint_le(reader, 1);
        assert(old(reader)@.take(1).drop_first().len() == 0);
        assert(le_value(old(reader)@.take(1).drop_first()) == 0);
        b != 0
    }

    fn state_write_to(&self, writer: &mut Vec<u8>) {
        writer.push(if *self {
            1
        } else {
            0
        });
    }

    proof fn lemma_state_roundtrip(&self, rest: Seq<u8>) {
        assert((seq![bool_byte(*self)] + rest)[0] == bool_byte(*self));
    }
}

impl ReadRPC for bool {
    open spec fn rpc_parse(data: Seq<u8>) -> Option<(bool, nat)> {
        if data.len() >= 1 && data[0] <= 1 {
            Some((data[0] == 1, 1))
        } else {
            None
        }
    }

    fn rpc_read_from(reader: &mut &[u8]) -> (res: bool) {
        bool::state_read_from(reader)
    }
}

impl WriteRPC for bool {
    open spec fn rpc_bytes(&self) -> Seq<u8> {
        seq![bool_byte(*self)]
    }

    open spec fn rpc_representable(&self) -> bool {
        true
    }

    fn rpc_write_to(&self, writer: &mut Vec<u8>) {
        self.state_write_to(writer)
    }
}

impl RpcRoundtrip for bool {
    proof fn lemma_rpc_roundtrip(&self, rest: Seq<u8>) {
        self.lemma_state_roundtrip(rest);
    }
}

/// Bytes that read as a boolean are written back as the same byte, in both
/// formats: only 0 and 1 are read.
pub proof fn law_bool_reserializes(data: Seq<u8>)
    ensures
        <bool as ReadWriteState>::state_parse(data) matches Some((b, n)) ==> n == 1 && seq![
            bool_byte(b),
        ] == data.take(1),
        <bool as ReadRPC>::rpc_parse(data) matches Some((b, n)) ==> n == 1 && seq![bool_byte(b)]
            == data.take(1),
{
    if data.len() >= 1 && data[0] <= 1 {
        assert(seq![bool_byte(data[0] == 1)] =~= data.take(1));
    }
}

impl<T: ReadWriteState> ReadWriteState for Option<T> {
    open spec fn state_bytes(&self) -> Seq<u8> {
        match self {
            None => seq![0u8],
            Some(v) => seq![1u8] + v.state_bytes(),
        }
    }

    open spec fn state_representable(&self) -> bool {
        match self {
            None => true,
            Some(v) => v.state_representable(),
        }
    }

    open spec fn state_parse(data: Seq<u8>) -> Option<(Option<T::V>, nat)> {
        if data.len() == 0 {
            None
        } else if data[0] == 0 {
            Some((None, 1))
        } else if data[0] == 1 {
            match T::state_parse(data.drop_first()) {
                Some((v, n)) => Some((Some(v), n + 1)),
                None => None,
            }
        } else {
            None
        }
    }

    fn state_read_from(reader: &mut &[u8]) -> (res: Self) {
        let ghost data = reader@;
        let marker = read_uint_le(reader, 1);
        assert(data.take(1).drop_first().len() == 0);
        assert(le_value(data.take(1).drop_first()) == 0);
        assert(reader@ == data.drop_first());
        if marker == 0 {
            None
        } else {
            let v = T::state_read_from(reader);
            assert(data.drop_first().skip(T::state_parse(data.drop_first())->Some_0.1 as int)
                =~= data.skip(T::state_parse(data.drop_first())->Some_0.1 + 1 as int));
            Some(v)
        }
    }

    fn state_write_to(&self, writer: &mut Vec<u8>) {
        match self {
            None => writer.push(0),
            Some(value) => {
                writer.push(1);
                value.state_write_to(writer);
                assert(writer@ =~= old(writer)@ + (seq![1u8] + value.state_bytes()));
            },
        }
    }

    proof fn lemma_state_roundtrip(&self, rest: Seq<u8>) {
        match self {
            None => {
                assert((seq![0u8] + rest)[0] == 0);
            },
            Some(v) => {
                let data = seq![1u8] + v.state_bytes() + rest;
                assert(data[0] == 1);
                assert(data.drop_first() =~= v.state_bytes() + rest);
                v.lemma_state_roundtrip(rest);
            },
        }
    }
}

/// Bytes that read as an optional value start with the marker that the value
/// is written with (0 for `None`, 1 for `Some`), and the value of `Some` is
/// what the bytes after the marker read as.
pub proof fn law_option_reserializes<T: ReadWriteState>(data: Seq<u8>)
    requires
        Option::<T>::state_parse(data) is Some,
    ensures
        Option::<T>::state_parse(data)->Some_0.0 is None ==> data[0] == 0
            && Option::<T>::state_parse(data)->Some_0.1 == 1,
        Option::<T>::state_parse(data)->Some_0.0 is Some ==> data[0] == 1
            && T::state_parse(data.drop_first()) == Some(
            (
                Option::<T>::state_parse(data)->Some_0.0->Some_0,
                (Option::<T>::state_parse(data)->Some_0.1 - 1) as nat,
            ),
        ),
{
}

impl<T: ReadRPC> ReadRPC for Option<T> {
    open spec fn rpc_parse(data: Seq<u8>) -> Option<(Option<T::V>, nat)> {
        if data.len() == 0 {
            None
        } else if data[0] == 0 {
            Some((None, 1))
        } else if data[0] == 1 {
            match T::rpc_parse(data.drop_first()) {
                Some((v, n)) => Some((Some(v), n + 1)),
                None => None,
            }
        } else {
            None
        }
    }

    fn rpc_read_from(reader: &mut &[u8]) -> (res: Self) {
        let ghost data = reader@;
        let marker = read_uint_le(reader, 1);
        assert(data.take(1).drop_first().len() == 0);
        assert(le_value(data.take(1).drop_first()) == 0);
        assert(reader@ == data.drop_first());
        if marker == 0 {
            None
        } else {
            let v = T::rpc_read_from(reader);
            assert(data.drop_first().skip(T::rpc_parse(data.drop_first())->Some_0.1 as int)
                =~= data.skip(T::rpc_parse(data.drop_first())->Some_0.1 + 1 as int));
            Some(v)
        }
    }
}

impl<T: WriteRPC> WriteRPC for Option<T> {
    open spec fn rpc_bytes(&self) -> Seq<u8> {
        match self {
            None => seq![0u8],
            Some(v) => seq![1u8] + v.rpc_bytes(),
        }
    }

    open spec fn rpc_representable(&self) -> bool {
        match self {
            None => true,
            Some(v) => v.rpc_representable(),
        }
    }

    fn rpc_write_to(&self, writer: &mut Vec<u8>) {
        match self {
            None => writer.push(0),
            Some(value) => {
                writer.push(1);
                value.rpc_write_to(writer);
                assert(writer@ =~= old(writer)@ + (seq![1u8] + value.rpc_bytes()));
            },
        }
    }
}

impl<T: RpcRoundtrip> RpcRoundtrip for Option<T> {
    proof fn lemma_rpc_roundtrip(&self, rest: Seq<u8>) {
        match self {
            None => {
                assert((seq![0u8] + rest)[0] == 0);
            },
            Some(v) => {
                let data = seq![1u8] + v.rpc_bytes() + rest;
                assert(data[0] == 1);
                assert(data.drop_first() =~= v.rpc_bytes() + rest);
                v.lemma_rpc_roundtrip(rest);
            },
        }
    }
}

/// The bytes of a string in the State format: its UTF-8 length as a 32-bit
/// little-endian number, then its UTF-8 bytes.
pub open spec fn string_state_bytes(chars: Seq<char>) -> Seq<u8> {
    le_bytes((encode_utf8(chars).len() as u32) as nat, 4) + encode_utf8(chars)
}

/// The bytes of a string in the RPC format: its UTF-8 length as a 32-bit
/// big-endian number, then its UTF-8 bytes.
pub open spec fn string_rpc_bytes(chars: Seq<char>) -> Seq<u8> {
    be_bytes((encode_utf8(chars).len() as u32) as nat, 4) + encode_utf8(chars)
}

/// Parses a length-prefixed UTF-8 string whose length was read as `n`.
pub open spec fn string_parse_body(data: Seq<u8>, n: nat) -> Option<(Seq<char>, nat)> {
    if data.len() >= 4 + n && valid_utf8(data.subrange(4, 4 + n as int)) {
        Some((decode_utf8(data.subrange(4, 4 + n as int)), 4 + n))
    } else {
        None
    }
}

/// Reads `n` UTF-8 bytes as a string.
fn read_utf8(reader: &mut &[u8], n: usize) -> (res: String)
    requires
        n <= old(reader)@.len(),
        valid_utf8(old(reader)@.take(n as int)),
    ensures
        res@ == decode_utf8(old(reader)@.take(n as int)),
        final(reader)@ == old(reader)@.skip(n as int),
{
    let bytes = read_bytes(reader, n);
    let ghost b = bytes@;
    let s = string_from_utf8(bytes);
    match s {
        Some(s) => {
            proof {
                encode_utf8_decode_utf8(s@);
            }
            s
        },
        None => {
            proof {
                assert(false);
            }
            String::new()
        },
    }
}

/// Writes the UTF-8 bytes of `s` after their length, in the byte order of
/// `big_endian`.
fn write_string(s: &String, writer: &mut Vec<u8>, big_endian: bool)
    ensures
        big_endian ==> final(writer)@ == old(writer)@ + string_rpc_bytes(s@),
        !big_endian ==> final(writer)@ == old(writer)@ + string_state_bytes(s@),
{
    let bytes = s.as_str().as_bytes();
    assert(bytes@ == encode_utf8(s@));
    let n = bytes.len() as u32;
    if big_endian {
        write_uint_be(writer, n as u128, 4);
    } else {
        write_uint_le(writer, n as u128, 4);
    }
    write_bytes(writer, bytes);
    assert(writer@ =~= old(writer)@ + (le_bytes(n as nat, 4) + encode_utf8(s@)) || writer@
        =~= old(writer)@ + (be_bytes(n as nat, 4) + encode_utf8(s@)));
    if big_endian {
        assert(writer@ =~= old(writer)@ + (be_bytes(n as nat, 4) + encode_utf8(s@)));
    } else {
        assert(writer@ =~= old(writer)@ + (le_bytes(n as nat, 4) + encode_utf8(s@)));
    }
}

impl ReadWriteState for String {
    open spec fn state_bytes(&self) -> Seq<u8> {
        string_state_bytes(self@)
    }

    open spec fn state_representable(&self) -> bool {
        encode_utf8(self@).len() <= u32::MAX
    }

    open spec fn state_parse(data: Seq<u8>) -> Option<(Seq<char>, nat)> {
        if data.len() >= 4 {
            string_parse_body(data, le_value(data.take(4)))
        } else {
            None
        }
    }

    fn state_read_from(reader: &mut &[u8]) -> (res: String) {
        let ghost data = reader@;
        let n = read_uint_le(reader, 4);
        proof {
            super::lemma_le_value_bound(data.take(4));
            reveal_with_fuel(pow256, 5);
            assert(data.skip(4).take(n as int) =~= data.subrange(4, 4 + n as int));
        }
        let s = read_utf8(reader, n as usize);
        assert(data.skip(4).skip(n as int) =~= data.skip(4 + n));
        s
    }

    fn state_write_to(&self, writer: &mut Vec<u8>) {
        write_string(self, writer, false);
    }

    proof fn lemma_state_roundtrip(&self, rest: Seq<u8>) {
        let e = encode_utf8(self@);
        let data = string_state_bytes(self@) + rest;
        assert(e.len() < pow256(4)) by {
            reveal_with_fuel(pow256, 5);
        }
        lemma_le_roundtrip(e.len(), 4);
        assert(data.take(4) =~= le_bytes(e.len(), 4));
        assert(data.subrange(4, 4 + e.len() as int) =~= e);
        vstd::utf8::encode_utf8_valid_utf8(self@);
        encode_utf8_decode_utf8(self@);
    }
}

impl ReadRPC for String {
    open spec fn rpc_parse(data: Seq<u8>) -> Option<(Seq<char>, nat)> {
        if data.len() >= 4 {
            string_parse_body(data, be_value(data.take(4)))
        } else {
            None
        }
    }

    fn rpc_read_from(reader: &mut &[u8]) -> (res: String) {
        let ghost data = reader@;
        let n = read_uint_be(reader, 4);
        proof {
            super::lemma_le_value_bound(data.take(4).reverse());
            reveal_with_fuel(pow256, 5);
            assert(data.skip(4).take(n as int) =~= data.subrange(4, 4 + n as int));
        }
        let s = read_utf8(reader, n as usize);
        assert(data.skip(4).skip(n as int) =~= data.skip(4 + n));
        s
    }
}

impl WriteRPC for String {
    open spec fn rpc_bytes(&self) -> Seq<u8> {
        string_rpc_bytes(self@)
    }

    open spec fn rpc_representable(&self) -> bool {
        encode_utf8(self@).len() <= u32::MAX
    }

    fn rpc_write_to(&self, writer: &mut Vec<u8>) {
        write_string(self, writer, true);
    }
}

impl RpcRoundtrip for String {
    proof fn lemma_rpc_roundtrip(&self, rest: Seq<u8>) {
        let e = encode_utf8(self@);
        let data = string_rpc_bytes(self@) + rest;
        assert(e.len() < pow256(4)) by {
            reveal_with_fuel(pow256, 5);
        }
        lemma_be_roundtrip(e.len(), 4);
        assert(data.take(4) =~= be_bytes(e.len(), 4));
        assert(data.subrange(4, 4 + e.len() as int) =~= e);
        vstd::utf8::encode_utf8_valid_utf8(self@);
        encode_utf8_decode_utf8(self@);
    }
}

impl StateCanonical for bool {
    open spec fn view_state_bytes(v: bool) -> Seq<u8> {
        v.state_bytes()
    }

    proof fn lemma_bytes_follow_view(&self) {
    }

    proof fn lemma_read_bytes_are_canonical(data: Seq<u8>) {
        if data.len() >= 1 && data[0] <= 1 {
            assert(seq![bool_byte(data[0] == 1)] =~= data.take(1));
        }
    }
}

/// The bytes that an optional value of the given deep view is written as.
pub open spec fn option_view_state_bytes<T: StateCanonical>(v: Option<T::V>) -> Seq<u8> {
    match v {
        None => seq![0u8],
        Some(x) => seq![1u8] + T::view_state_bytes(x),
    }
}

impl<T: StateCanonical> StateCanonical for Option<T> {
    open spec fn view_state_bytes(v: Option<T::V>) -> Seq<u8> {
        option_view_state_bytes::<T>(v)
    }

    proof fn lemma_bytes_follow_view(&self) {
        match self {
            None => {},
            Some(x) => {
                x.lemma_bytes_follow_view();
            },
        }
    }

    proof fn lemma_read_bytes_are_canonical(data: Seq<u8>) {
        if data.len() > 0 && data[0] == 0 {
            assert(data.take(1) =~= seq![0u8]);
        } else if data.len() > 0 && data[0] == 1 {
            T::lemma_read_bytes_are_canonical(data.drop_first());
            if T::state_parse(data.drop_first()) is Some {
                let n = T::state_parse(data.drop_first())->Some_0.1;
                assert(data.take((n + 1) as int) =~= seq![1u8] + data.drop_first().take(n as int));
            }
        }
    }
}

impl StateCanonical for String {
    open spec fn view_state_bytes(v: Seq<char>) -> Seq<u8> {
        string_state_bytes(v)
    }

    proof fn lemma_bytes_follow_view(&self) {
    }

    proof fn lemma_read_bytes_are_canonical(data: Seq<u8>) {
        if data.len() >= 4 {
            let n = le_value(data.take(4));
            super::lemma_le_value_bound(data.take(4));
            reveal_with_fuel(pow256, 5);
            super::lemma_le_bytes_of_value(data.take(4));
            if data.len() >= 4 + n && valid_utf8(data.subrange(4, 4 + n as int)) {
                let sub = data.subrange(4, 4 + n as int);
                vstd::utf8::decode_utf8_encode_utf8(sub);
                assert(data.take(4 + n as int) =~= data.take(4) + sub);
            }
        }
    }
}

/// A boolean is written as one byte, 1 for `true` and 0 for `false`, in both
/// formats.
pub proof fn law_bool_bytes(b: bool)
    ensures
        b.state_bytes() == seq![if b { 1u8 } else { 0u8 }],
        b.rpc_bytes() == seq![if b { 1u8 } else { 0u8 }],
{
}

} // verus!
