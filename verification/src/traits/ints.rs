//! The State and RPC formats of the integer types: little-endian in State,
//! big-endian in RPC, two's complement for the signed types.
use vstd::prelude::*;

use super::{
    be_bytes, be_value, le_bytes, le_value, lemma_be_roundtrip, lemma_le_roundtrip, pow256,
    read_uint_be, read_uint_le, write_uint_be, write_uint_le, ReadRPC, ReadWriteState,
    RpcRoundtrip, StateCanonical, WriteRPC, lemma_le_value_bound, lemma_le_bytes_of_value,
};

verus! {

impl ReadWriteState for u8 {
    open spec fn state_bytes(&self) -> Seq<u8> {
        le_bytes(*self as nat, 1)
    }

    open spec fn state_representable(&self) -> bool {
        true
    }

    open spec fn state_parse(data: Seq<u8>) -> Option<(u8, nat)> {
        if data.len() >= 1 {
            Some((le_value(data.take(1)) as u8, 1))
        } else {
            None
        }
    }

    fn state_read_from(reader: &mut &[u8]) -> (res: u8) {
        let x = read_uint_le(reader, 1);
        x as u8
    }

    fn state_write_to(&self, writer: &mut Vec<u8>) {
        write_uint_le(writer, *self as u128, 1);
    }

    proof fn lemma_state_roundtrip(&self, rest: Seq<u8>) {
        let x = *self as nat;
        assert(x < pow256(1)) by {
            reveal_with_fuel(pow256, 2);
        }
        lemma_le_roundtrip(x, 1);
        assert((le_bytes(x, 1) + rest).take(1) =~= le_bytes(x, 1));
    }
}

impl ReadRPC for u8 {
    open spec fn rpc_parse(data: Seq<u8>) -> Option<(u8, nat)> {
        if data.len() >= 1 {
            Some((be_value(data.take(1)) as u8, 1))
        } else {
            None
        }
    }

    fn rpc_read_from(reader: &mut &[u8]) -> (res: u8) {
        let x = read_uint_be(reader, 1);
        x as u8
    }
}

impl WriteRPC for u8 {
    open spec fn rpc_bytes(&self) -> Seq<u8> {
        be_bytes(*self as nat, 1)
    }

    open spec fn rpc_representable(&self) -> bool {
        true
    }

    fn rpc_write_to(&self, writer: &mut Vec<u8>) {
        write_uint_be(writer, *self as u128, 1);
    }
}

impl RpcRoundtrip for u8 {
    proof fn lemma_rpc_roundtrip(&self, rest: Seq<u8>) {
        let x = *self as nat;
        assert(x < pow256(1)) by {
            reveal_with_fuel(pow256, 2);
        }
        lemma_be_roundtrip(x, 1);
        assert((be_bytes(x, 1) + rest).take(1) =~= be_bytes(x, 1));
    }
}

/// Reading back the unsigned bits of a `i8` gives the `i8`.
proof fn lemma_i8_bits(v: i8)
    ensures
        ((v as u8) as i8) == v,
{
    assert(((v as u8) as i8) == v) by (bit_vector);
}

impl ReadWriteState for i8 {
    open spec fn state_bytes(&self) -> Seq<u8> {
        le_bytes((*self as u8) as nat, 1)
    }

    open spec fn state_representable(&self) -> bool {
        true
    }

    open spec fn state_parse(data: Seq<u8>) -> Option<(i8, nat)> {
        if data.len() >= 1 {
            Some(((le_value(data.take(1)) as u8) as i8, 1))
        } else {
            None
        }
    }

    fn state_read_from(reader: &mut &[u8]) -> (res: i8) {
        let x = read_uint_le(reader, 1);
        (x as u8) as i8
    }

    fn state_write_to(&self, writer: &mut Vec<u8>) {
        write_uint_le(writer, (*self as u8) as u128, 1);
    }

    proof fn lemma_state_roundtrip(&self, rest: Seq<u8>) {
        let x = (*self as u8) as nat;
        assert(x < pow256(1)) by {
            reveal_with_fuel(pow256, 2);
        }
        lemma_le_roundtrip(x, 1);
        assert((le_bytes(x, 1) + rest).take(1) =~= le_bytes(x, 1));
        lemma_i8_bits(*self);
    }
}

impl ReadRPC for i8 {
    open spec fn rpc_parse(data: Seq<u8>) -> Option<(i8, nat)> {
        if data.len() >= 1 {
            Some(((be_value(data.take(1)) as u8) as i8, 1))
        } else {
            None
        }
    }

    fn rpc_read_from(reader: &mut &[u8]) -> (res: i8) {
        let x = read_uint_be(reader, 1);
        (x as u8) as i8
    }
}

impl WriteRPC for i8 {
    open spec fn rpc_bytes(&self) -> Seq<u8> {
        be_bytes((*self as u8) as nat, 1)
    }

    open spec fn rpc_representable(&self) -> bool {
        true
    }

    fn rpc_write_to(&self, writer: &mut Vec<u8>) {
        write_uint_be(writer, (*self as u8) as u128, 1);
    }
}

impl RpcRoundtrip for i8 {
    proof fn lemma_rpc_roundtrip(&self, rest: Seq<u8>) {
        let x = (*self as u8) as nat;
        assert(x < pow256(1)) by {
            reveal_with_fuel(pow256, 2);
        }
        lemma_be_roundtrip(x, 1);
        assert((be_bytes(x, 1) + rest).take(1) =~= be_bytes(x, 1));
        lemma_i8_bits(*self);
    }
}

impl ReadWriteState for u16 {
    open spec fn state_bytes(&self) -> Seq<u8> {
        le_bytes(*self as nat, 2)
    }

    open spec fn state_representable(&self) -> bool {
        true
    }

    open spec fn state_parse(data: Seq<u8>) -> Option<(u16, nat)> {
        if data.len() >= 2 {
            Some((le_value(data.take(2)) as u16, 2))
        } else {
            None
        }
    }

    fn state_read_from(reader: &mut &[u8]) -> (res: u16) {
        let x = read_uint_le(reader, 2);
        x as u16
    }

    fn state_write_to(&self, writer: &mut Vec<u8>) {
        write_uint_le(writer, *self as u128, 2);
    }

    proof fn lemma_state_roundtrip(&self, rest: Seq<u8>) {
        let x = *self as nat;
        assert(x < pow256(2)) by {
            reveal_with_fuel(pow256, 3);
        }
        lemma_le_roundtrip(x, 2);
        assert((le_bytes(x, 2) + rest).take(2) =~= le_bytes(x, 2));
    }
}

impl ReadRPC for u16 {
    open spec fn rpc_parse(data: Seq<u8>) -> Option<(u16, nat)> {
        if data.len() >= 2 {
            Some((be_value(data.take(2)) as u16, 2))
        } else {
            None
        }
    }

    fn rpc_read_from(reader: &mut &[u8]) -> (res: u16) {
        let x = read_uint_be(reader, 2);
        x as u16
    }
}

impl WriteRPC for u16 {
    open spec fn rpc_bytes(&self) -> Seq<u8> {
        be_bytes(*self as nat, 2)
    }

    open spec fn rpc_representable(&self) -> bool {
        true
    }

    fn rpc_write_to(&self, writer: &mut Vec<u8>) {
        write_uint_be(writer, *self as u128, 2);
    }
}

impl RpcRoundtrip for u16 {
    proof fn lemma_rpc_roundtrip(&self, rest: Seq<u8>) {
        let x = *self as nat;
        assert(x < pow256(2)) by {
            reveal_with_fuel(pow256, 3);
        }
        lemma_be_roundtrip(x, 2);
        assert((be_bytes(x, 2) + rest).take(2) =~= be_bytes(x, 2));
    }
}

impl ReadWriteState for u32 {
    open spec fn state_bytes(&self) -> Seq<u8> {
        le_bytes(*self as nat, 4)
    }

    open spec fn state_representable(&self) -> bool {
        true
    }

    open spec fn state_parse(data: Seq<u8>) -> Option<(u32, nat)> {
        if data.len() >= 4 {
            Some((le_value(data.take(4)) as u32, 4))
        } else {
            None
        }
    }

    fn state_read_from(reader: &mut &[u8]) -> (res: u32) {
        let x = read_uint_le(reader, 4);
        x as u32
    }

    fn state_write_to(&self, writer: &mut Vec<u8>) {
        write_uint_le(writer, *self as u128, 4);
    }

    proof fn lemma_state_roundtrip(&self, rest: Seq<u8>) {
        let x = *self as nat;
        assert(x < pow256(4)) by {
            reveal_with_fuel(pow256, 5);
        }
        lemma_le_roundtrip(x, 4);
        assert((le_bytes(x, 4) + rest).take(4) =~= le_bytes(x, 4));
    }
}

impl ReadRPC for u32 {
    open spec fn rpc_parse(data: Seq<u8>) -> Option<(u32, nat)> {
        if data.len() >= 4 {
            Some((be_value(data.take(4)) as u32, 4))
        } else {
            None
        }
    }

    fn rpc_read_from(reader: &mut &[u8]) -> (res: u32) {
        let x = read_uint_be(reader, 4);
        x as u32
    }
}

impl WriteRPC for u32 {
    open spec fn rpc_bytes(&self) -> Seq<u8> {
        be_bytes(*self as nat, 4)
    }

    open spec fn rpc_representable(&self) -> bool {
        true
    }

    fn rpc_write_to(&self, writer: &mut Vec<u8>) {
        write_uint_be(writer, *self as u128, 4);
    }
}

impl RpcRoundtrip for u32 {
    proof fn lemma_rpc_roundtrip(&self, rest: Seq<u8>) {
        let x = *self as nat;
        assert(x < pow256(4)) by {
            reveal_with_fuel(pow256, 5);
        }
        lemma_be_roundtrip(x, 4);
        assert((be_bytes(x, 4) + rest).take(4) =~= be_bytes(x, 4));
    }
}

impl ReadWriteState for u64 {
    open spec fn state_bytes(&self) -> Seq<u8> {
        le_bytes(*self as nat, 8)
    }

    open spec fn state_representable(&self) -> bool {
        true
    }

    open spec fn state_parse(data: Seq<u8>) -> Option<(u64, nat)> {
        if data.len() >= 8 {
            Some((le_value(data.take(8)) as u64, 8))
        } else {
            None
        }
    }

    fn state_read_from(reader: &mut &[u8]) -> (res: u64) {
        let x = read_uint_le(reader, 8);
        x as u64
    }

    fn state_write_to(&self, writer: &mut Vec<u8>) {
        write_uint_le(writer, *self as u128, 8);
    }

    proof fn lemma_state_roundtrip(&self, rest: Seq<u8>) {
        let x = *self as nat;
        assert(x < pow256(8)) by {
            reveal_with_fuel(pow256, 9);
        }
        lemma_le_roundtrip(x, 8);
        assert((le_bytes(x, 8) + rest).take(8) =~= le_bytes(x, 8));
    }
}

impl ReadRPC for u64 {
    open spec fn rpc_parse(data: Seq<u8>) -> Option<(u64, nat)> {
        if data.len() >= 8 {
            Some((be_value(data.take(8)) as u64, 8))
        } else {
            None
        }
    }

    fn rpc_read_from(reader: &mut &[u8]) -> (res: u64) {
        let x = read_uint_be(reader, 8);
        x as u64
    }
}

impl WriteRPC for u64 {
    open spec fn rpc_bytes(&self) -> Seq<u8> {
        be_bytes(*self as nat, 8)
    }

    open spec fn rpc_representable(&self) -> bool {
        true
    }

    fn rpc_write_to(&self, writer: &mut Vec<u8>) {
        write_uint_be(writer, *self as u128, 8);
    }
}

impl RpcRoundtrip for u64 {
    proof fn lemma_rpc_roundtrip(&self, rest: Seq<u8>) {
        let x = *self as nat;
        assert(x < pow256(8)) by {
            reveal_with_fuel(pow256, 9);
        }
        lemma_be_roundtrip(x, 8);
        assert((be_bytes(x, 8) + rest).take(8) =~= be_bytes(x, 8));
    }
}

impl ReadWriteState for u128 {
    open spec fn state_bytes(&self) -> Seq<u8> {
        le_bytes(*self as nat, 16)
    }

    open spec fn state_representable(&self) -> bool {
        true
    }

    open spec fn state_parse(data: Seq<u8>) -> Option<(u128, nat)> {
        if data.len() >= 16 {
            Some((le_value(data.take(16)) as u128, 16))
        } else {
            None
        }
    }

    fn state_read_from(reader: &mut &[u8]) -> (res: u128) {
        let x = read_uint_le(reader, 16);
        x as u128
    }

    fn state_write_to(&self, writer: &mut Vec<u8>) {
        write_uint_le(writer, *self as u128, 16);
    }

    proof fn lemma_state_roundtrip(&self, rest: Seq<u8>) {
        let x = *self as nat;
        assert(x < pow256(16)) by {
            reveal_with_fuel(pow256, 17);
        }
        lemma_le_roundtrip(x, 16);
        assert((le_bytes(x, 16) + rest).take(16) =~= le_bytes(x, 16));
    }
}

impl ReadRPC for u128 {
    open spec fn rpc_parse(data: Seq<u8>) -> Option<(u128, nat)> {
        if data.len() >= 16 {
            Some((be_value(data.take(16)) as u128, 16))
        } else {
            None
        }
    }

    fn rpc_read_from(reader: &mut &[u8]) -> (res: u128) {
        let x = read_uint_be(reader, 16);
        x as u128
    }
}

impl WriteRPC for u128 {
    open spec fn rpc_bytes(&self) -> Seq<u8> {
        be_bytes(*self as nat, 16)
    }

    open spec fn rpc_representable(&self) -> bool {
        true
    }

    fn rpc_write_to(&self, writer: &mut Vec<u8>) {
        write_uint_be(writer, *self as u128, 16);
    }
}

impl RpcRoundtrip for u128 {
    proof fn lemma_rpc_roundtrip(&self, rest: Seq<u8>) {
        let x = *self as nat;
        assert(x < pow256(16)) by {
            reveal_with_fuel(pow256, 17);
        }
        lemma_be_roundtrip(x, 16);
        assert((be_bytes(x, 16) + rest).take(16) =~= be_bytes(x, 16));
    }
}

/// Reading back the unsigned bits of a `i16` gives the `i16`.
proof fn lemma_i16_bits(v: i16)
    ensures
        ((v as u16) as i16) == v,
{
    assert(((v as u16) as i16) == v) by (bit_vector);
}

impl ReadWriteState for i16 {
    open spec fn state_bytes(&self) -> Seq<u8> {
        le_bytes((*self as u16) as nat, 2)
    }

    open spec fn state_representable(&self) -> bool {
        true
    }

    open spec fn state_parse(data: Seq<u8>) -> Option<(i16, nat)> {
        if data.len() >= 2 {
            Some(((le_value(data.take(2)) as u16) as i16, 2))
        } else {
            None
        }
    }

    fn state_read_from(reader: &mut &[u8]) -> (res: i16) {
        let x = read_uint_le(reader, 2);
        (x as u16) as i16
    }

    fn state_write_to(&self, writer: &mut Vec<u8>) {
        write_uint_le(writer, (*self as u16) as u128, 2);
    }

    proof fn lemma_state_roundtrip(&self, rest: Seq<u8>) {
        let x = (*self as u16) as nat;
        assert(x < pow256(2)) by {
            reveal_with_fuel(pow256, 3);
        }
        lemma_le_roundtrip(x, 2);
        assert((le_bytes(x, 2) + rest).take(2) =~= le_bytes(x, 2));
        lemma_i16_bits(*self);
    }
}

impl ReadRPC for i16 {
    open spec fn rpc_parse(data: Seq<u8>) -> Option<(i16, nat)> {
        if data.len() >= 2 {
            Some(((be_value(data.take(2)) as u16) as i16, 2))
        } else {
            None
        }
    }

    fn rpc_read_from(reader: &mut &[u8]) -> (res: i16) {
        let x = read_uint_be(reader, 2);
        (x as u16) as i16
    }
}

impl WriteRPC for i16 {
    open spec fn rpc_bytes(&self) -> Seq<u8> {
        be_bytes((*self as u16) as nat, 2)
    }

    open spec fn rpc_representable(&self) -> bool {
        true
    }

    fn rpc_write_to(&self, writer: &mut Vec<u8>) {
        write_uint_be(writer, (*self as u16) as u128, 2);
    }
}

impl RpcRoundtrip for i16 {
    proof fn lemma_rpc_roundtrip(&self, rest: Seq<u8>) {
        let x = (*self as u16) as nat;
        assert(x < pow256(2)) by {
            reveal_with_fuel(pow256, 3);
        }
        lemma_be_roundtrip(x, 2);
        assert((be_bytes(x, 2) + rest).take(2) =~= be_bytes(x, 2));
        lemma_i16_bits(*self);
    }
}

/// Reading back the unsigned bits of a `i32` gives the `i32`.
proof fn lemma_i32_bits(v: i32)
    ensures
        ((v as u32) as i32) == v,
{
    assert(((v as u32) as i32) == v) by (bit_vector);
}

impl ReadWriteState for i32 {
    open spec fn state_bytes(&self) -> Seq<u8> {
        le_bytes((*self as u32) as nat, 4)
    }

    open spec fn state_representable(&self) -> bool {
        true
    }

    open spec fn state_parse(data: Seq<u8>) -> Option<(i32, nat)> {
        if data.len() >= 4 {
            Some(((le_value(data.take(4)) as u32) as i32, 4))
        } else {
            None
        }
    }

    fn state_read_from(reader: &mut &[u8]) -> (res: i32) {
        let x = read_uint_le(reader, 4);
        (x as u32) as i32
    }

    fn state_write_to(&self, writer: &mut Vec<u8>) {
        write_uint_le(writer, (*self as u32) as u128, 4);
    }

    proof fn lemma_state_roundtrip(&self, rest: Seq<u8>) {
        let x = (*self as u32) as nat;
        assert(x < pow256(4)) by {
            reveal_with_fuel(pow256, 5);
        }
        lemma_le_roundtrip(x, 4);
        assert((le_bytes(x, 4) + rest).take(4) =~= le_bytes(x, 4));
        lemma_i32_bits(*self);
    }
}

impl ReadRPC for i32 {
    open spec fn rpc_parse(data: Seq<u8>) -> Option<(i32, nat)> {
        if data.len() >= 4 {
            Some(((be_value(data.take(4)) as u32) as i32, 4))
        } else {
            None
        }
    }

    fn rpc_read_from(reader: &mut &[u8]) -> (res: i32) {
        let x = read_uint_be(reader, 4);
        (x as u32) as i32
    }
}

impl WriteRPC for i32 {
    open spec fn rpc_bytes(&self) -> Seq<u8> {
        be_bytes((*self as u32) as nat, 4)
    }

    open spec fn rpc_representable(&self) -> bool {
        true
    }

    fn rpc_write_to(&self, writer: &mut Vec<u8>) {
        write_uint_be(writer, (*self as u32) as u128, 4);
    }
}

impl RpcRoundtrip for i32 {
    proof fn lemma_rpc_roundtrip(&self, rest: Seq<u8>) {
        let x = (*self as u32) as nat;
        assert(x < pow256(4)) by {
            reveal_with_fuel(pow256, 5);
        }
        lemma_be_roundtrip(x, 4);
        assert((be_bytes(x, 4) + rest).take(4) =~= be_bytes(x, 4));
        lemma_i32_bits(*self);
    }
}

/// Reading back the unsigned bits of a `i64` gives the `i64`.
proof fn lemma_i64_bits(v: i64)
    ensures
        ((v as u64) as i64) == v,
{
    assert(((v as u64) as i64) == v) by (bit_vector);
}

impl ReadWriteState for i64 {
    open spec fn state_bytes(&self) -> Seq<u8> {
        le_bytes((*self as u64) as nat, 8)
    }

    open spec fn state_representable(&self) -> bool {
        true
    }

    open spec fn state_parse(data: Seq<u8>) -> Option<(i64, nat)> {
        if data.len() >= 8 {
            Some(((le_value(data.take(8)) as u64) as i64, 8))
        } else {
            None
        }
    }

    fn state_read_from(reader: &mut &[u8]) -> (res: i64) {
        let x = read_uint_le(reader, 8);
        (x as u64) as i64
    }

    fn state_write_to(&self, writer: &mut Vec<u8>) {
        write_uint_le(writer, (*self as u64) as u128, 8);
    }

    proof fn lemma_state_roundtrip(&self, rest: Seq<u8>) {
        let x = (*self as u64) as nat;
        assert(x < pow256(8)) by {
            reveal_with_fuel(pow256, 9);
        }
        lemma_le_roundtrip(x, 8);
        assert((le_bytes(x, 8) + rest).take(8) =~= le_bytes(x, 8));
        lemma_i64_bits(*self);
    }
}

impl ReadRPC for i64 {
    open spec fn rpc_parse(data: Seq<u8>) -> Option<(i64, nat)> {
        if data.len() >= 8 {
            Some(((be_value(data.take(8)) as u64) as i64, 8))
        } else {
            None
        }
    }

    fn rpc_read_from(reader: &mut &[u8]) -> (res: i64) {
        let x = read_uint_be(reader, 8);
        (x as u64) as i64
    }
}

impl WriteRPC for i64 {
    open spec fn rpc_bytes(&self) -> Seq<u8> {
        be_bytes((*self as u64) as nat, 8)
    }

    open spec fn rpc_representable(&self) -> bool {
        true
    }

    fn rpc_write_to(&self, writer: &mut Vec<u8>) {
        write_uint_be(writer, (*self as u64) as u128, 8);
    }
}

impl RpcRoundtrip for i64 {
    proof fn lemma_rpc_roundtrip(&self, rest: Seq<u8>) {
        let x = (*self as u64) as nat;
        assert(x < pow256(8)) by {
            reveal_with_fuel(pow256, 9);
        }
        lemma_be_roundtrip(x, 8);
        assert((be_bytes(x, 8) + rest).take(8) =~= be_bytes(x, 8));
        lemma_i64_bits(*self);
    }
}

/// Reading back the unsigned bits of a `i128` gives the `i128`.
proof fn lemma_i128_bits(v: i128)
    ensures
        ((v as u128) as i128) == v,
{
    assert(((v as u128) as i128) == v) by (bit_vector);
}

impl ReadWriteState for i128 {
    open spec fn state_bytes(&self) -> Seq<u8> {
        le_bytes((*self as u128) as nat, 16)
    }

    open spec fn state_representable(&self) -> bool {
        true
    }

    open spec fn state_parse(data: Seq<u8>) -> Option<(i128, nat)> {
        if data.len() >= 16 {
            Some(((le_value(data.take(16)) as u128) as i128, 16))
        } else {
            None
        }
    }

    fn state_read_from(reader: &mut &[u8]) -> (res: i128) {
        let x = read_uint_le(reader, 16);
        (x as u128) as i128
    }

    fn state_write_to(&self, writer: &mut Vec<u8>) {
        write_uint_le(writer, (*self as u128) as u128, 16);
    }

    proof fn lemma_state_roundtrip(&self, rest: Seq<u8>) {
        let x = (*self as u128) as nat;
        assert(x < pow256(16)) by {
            reveal_with_fuel(pow256, 17);
        }
        lemma_le_roundtrip(x, 16);
        assert((le_bytes(x, 16) + rest).take(16) =~= le_bytes(x, 16));
        lemma_i128_bits(*self);
    }
}

impl ReadRPC for i128 {
    open spec fn rpc_parse(data: Seq<u8>) -> Option<(i128, nat)> {
        if data.len() >= 16 {
            Some(((be_value(data.take(16)) as u128) as i128, 16))
        } else {
            None
        }
    }

    fn rpc_read_from(reader: &mut &[u8]) -> (res: i128) {
        let x = read_uint_be(reader, 16);
        (x as u128) as i128
    }
}

impl WriteRPC for i128 {
    open spec fn rpc_bytes(&self) -> Seq<u8> {
        be_bytes((*self as u128) as nat, 16)
    }

    open spec fn rpc_representable(&self) -> bool {
        true
    }

    fn rpc_write_to(&self, writer: &mut Vec<u8>) {
        write_uint_be(writer, (*self as u128) as u128, 16);
    }
}

impl RpcRoundtrip for i128 {
    proof fn lemma_rpc_roundtrip(&self, rest: Seq<u8>) {
        let x = (*self as u128) as nat;
        assert(x < pow256(16)) by {
            reveal_with_fuel(pow256, 17);
        }
        lemma_be_roundtrip(x, 16);
        assert((be_bytes(x, 16) + rest).take(16) =~= be_bytes(x, 16));
        lemma_i128_bits(*self);
    }
}

impl StateCanonical for u8 {
    open spec fn view_state_bytes(v: u8) -> Seq<u8> {
        v.state_bytes()
    }

    proof fn lemma_bytes_follow_view(&self) {
    }

    proof fn lemma_read_bytes_are_canonical(data: Seq<u8>) {
        if data.len() >= 1 {
            let w = data.take(1);
            lemma_le_value_bound(w);
            reveal_with_fuel(pow256, 2);
            lemma_le_bytes_of_value(w);
            let x = le_value(w) as u8;
            assert(x as nat == le_value(w));
            assert(data.take(1) =~= w);
        }
    }
}

/// The unsigned bits of a `i8`, reinterpreted, give them back.
proof fn lemma_u8_as_i8_bits(x: u8)
    ensures
        ((x as i8) as u8) == x,
{
    assert(((x as i8) as u8) == x) by (bit_vector);
}

impl StateCanonical for i8 {
    open spec fn view_state_bytes(v: i8) -> Seq<u8> {
        v.state_bytes()
    }

    proof fn lemma_bytes_follow_view(&self) {
    }

    proof fn lemma_read_bytes_are_canonical(data: Seq<u8>) {
        if data.len() >= 1 {
            let w = data.take(1);
            lemma_le_value_bound(w);
            reveal_with_fuel(pow256, 2);
            lemma_le_bytes_of_value(w);
            let x = le_value(w) as u8;
            assert(x as nat == le_value(w));
            lemma_u8_as_i8_bits(x);
            assert(data.take(1) =~= w);
        }
    }
}

impl StateCanonical for u16 {
    open spec fn view_state_bytes(v: u16) -> Seq<u8> {
        v.state_bytes()
    }

    proof fn lemma_bytes_follow_view(&self) {
    }

    proof fn lemma_read_bytes_are_canonical(data: Seq<u8>) {
        if data.len() >= 2 {
            let w = data.take(2);
            lemma_le_value_bound(w);
            reveal_with_fuel(pow256, 3);
            lemma_le_bytes_of_value(w);
            let x = le_value(w) as u16;
            assert(x as nat == le_value(w));
            assert(data.take(2) =~= w);
        }
    }
}

/// The unsigned bits of a `i16`, reinterpreted, give them back.
proof fn lemma_u16_as_i16_bits(x: u16)
    ensures
        ((x as i16) as u16) == x,
{
    assert(((x as i16) as u16) == x) by (bit_vector);
}

impl StateCanonical for i16 {
    open spec fn view_state_bytes(v: i16) -> Seq<u8> {
        v.state_bytes()
    }

    proof fn lemma_bytes_follow_view(&self) {
    }

    proof fn lemma_read_bytes_are_canonical(data: Seq<u8>) {
        if data.len() >= 2 {
            let w = data.take(2);
            lemma_le_value_bound(w);
            reveal_with_fuel(pow256, 3);
            lemma_le_bytes_of_value(w);
            let x = le_value(w) as u16;
            assert(x as nat == le_value(w));
            lemma_u16_as_i16_bits(x);
            assert(data.take(2) =~= w);
        }
    }
}

impl StateCanonical for u32 {
    open spec fn view_state_bytes(v: u32) -> Seq<u8> {
        v.state_bytes()
    }

    proof fn lemma_bytes_follow_view(&self) {
    }

    proof fn lemma_read_bytes_are_canonical(data: Seq<u8>) {
        if data.len() >= 4 {
            let w = data.take(4);
            lemma_le_value_bound(w);
            reveal_with_fuel(pow256, 5);
            lemma_le_bytes_of_value(w);
            let x = le_value(w) as u32;
            assert(x as nat == le_value(w));
            assert(data.take(4) =~= w);
        }
    }
}

/// The unsigned bits of a `i32`, reinterpreted, give them back.
proof fn lemma_u32_as_i32_bits(x: u32)
    ensures
        ((x as i32) as u32) == x,
{
    assert(((x as i32) as u32) == x) by (bit_vector);
}

impl StateCanonical for i32 {
    open spec fn view_state_bytes(v: i32) -> Seq<u8> {
        v.state_bytes()
    }

    proof fn lemma_bytes_follow_view(&self) {
    }

    proof fn lemma_read_bytes_are_canonical(data: Seq<u8>) {
        if data.len() >= 4 {
            let w = data.take(4);
            lemma_le_value_bound(w);
            reveal_with_fuel(pow256, 5);
            lemma_le_bytes_of_value(w);
            let x = le_value(w) as u32;
            assert(x as nat == le_value(w));
            lemma_u32_as_i32_bits(x);
            assert(data.take(4) =~= w);
        }
    }
}

impl StateCanonical for u64 {
    open spec fn view_state_bytes(v: u64) -> Seq<u8> {
        v.state_bytes()
    }

    proof fn lemma_bytes_follow_view(&self) {
    }

    proof fn lemma_read_bytes_are_canonical(data: Seq<u8>) {
        if data.len() >= 8 {
            let w = data.take(8);
            lemma_le_value_bound(w);
            reveal_with_fuel(pow256, 9);
            lemma_le_bytes_of_value(w);
            let x = le_value(w) as u64;
            assert(x as nat == le_value(w));
            assert(data.take(8) =~= w);
        }
    }
}

/// The unsigned bits of a `i64`, reinterpreted, give them back.
proof fn lemma_u64_as_i64_bits(x: u64)
    ensures
        ((x as i64) as u64) == x,
{
    assert(((x as i64) as u64) == x) by (bit_vector);
}

impl StateCanonical for i64 {
    open spec fn view_state_bytes(v: i64) -> Seq<u8> {
        v.state_bytes()
    }

    proof fn lemma_bytes_follow_view(&self) {
    }

    proof fn lemma_read_bytes_are_canonical(data: Seq<u8>) {
        if data.len() >= 8 {
            let w = data.take(8);
            lemma_le_value_bound(w);
            reveal_with_fuel(pow256, 9);
            lemma_le_bytes_of_value(w);
            let x = le_value(w) as u64;
            assert(x as nat == le_value(w));
            lemma_u64_as_i64_bits(x);
            assert(data.take(8) =~= w);
        }
    }
}

impl StateCanonical for u128 {
    open spec fn view_state_bytes(v: u128) -> Seq<u8> {
        v.state_bytes()
    }

    proof fn lemma_bytes_follow_view(&self) {
    }

    proof fn lemma_read_bytes_are_canonical(data: Seq<u8>) {
        if data.len() >= 16 {
            let w = data.take(16);
            lemma_le_value_bound(w);
            reveal_with_fuel(pow256, 17);
            lemma_le_bytes_of_value(w);
            let x = le_value(w) as u128;
            assert(x as nat == le_value(w));
            assert(data.take(16) =~= w);
        }
    }
}

/// The unsigned bits of a `i128`, reinterpreted, give them back.
proof fn lemma_u128_as_i128_bits(x: u128)
    ensures
        ((x as i128) as u128) == x,
{
    assert(((x as i128) as u128) == x) by (bit_vector);
}

impl StateCanonical for i128 {
    open spec fn view_state_bytes(v: i128) -> Seq<u8> {
        v.state_bytes()
    }

    proof fn lemma_bytes_follow_view(&self) {
    }

    proof fn lemma_read_bytes_are_canonical(data: Seq<u8>) {
        if data.len() >= 16 {
            let w = data.take(16);
            lemma_le_value_bound(w);
            reveal_with_fuel(pow256, 17);
            lemma_le_bytes_of_value(w);
            let x = le_value(w) as u128;
            assert(x as nat == le_value(w));
            lemma_u128_as_i128_bits(x);
            assert(data.take(16) =~= w);
        }
    }
}

/// A `u8` is written in 1 bytes: in the State format least significant
/// first (its bytes read back as the value's 8-bit pattern), in the RPC
/// format the same bytes in reverse order.
pub proof fn law_u8_byte_order(x: u8)
    ensures
        x.state_bytes().len() == 1,
        le_value(x.state_bytes()) == (x as u8) as nat,
        x.rpc_bytes() == x.state_bytes().reverse(),
{
    assert(((x as u8) as nat) < pow256(1)) by {
        reveal_with_fuel(pow256, 2);
    }
    lemma_le_roundtrip((x as u8) as nat, 1);
}

/// A `i8` is written in 1 bytes: in the State format least significant
/// first (its bytes read back as the value's 8-bit pattern), in the RPC
/// format the same bytes in reverse order.
pub proof fn law_i8_byte_order(x: i8)
    ensures
        x.state_bytes().len() == 1,
        le_value(x.state_bytes()) == (x as u8) as nat,
        x.rpc_bytes() == x.state_bytes().reverse(),
{
    assert(((x as u8) as nat) < pow256(1)) by {
        reveal_with_fuel(pow256, 2);
    }
    lemma_le_roundtrip((x as u8) as nat, 1);
}

/// A `u16` is written in 2 bytes: in the State format least significant
/// first (its bytes read back as the value's 16-bit pattern), in the RPC
/// format the same bytes in reverse order.
pub proof fn law_u16_byte_order(x: u16)
    ensures
        x.state_bytes().len() == 2,
        le_value(x.state_bytes()) == (x as u16) as nat,
        x.rpc_bytes() == x.state_bytes().reverse(),
{
    assert(((x as u16) as nat) < pow256(2)) by {
        reveal_with_fuel(pow256, 3);
    }
    lemma_le_roundtrip((x as u16) as nat, 2);
}

/// A `i16` is written in 2 bytes: in the State format least significant
/// first (its bytes read back as the value's 16-bit pattern), in the RPC
/// format the same bytes in reverse order.
pub proof fn law_i16_byte_order(x: i16)
    ensures
        x.state_bytes().len() == 2,
        le_value(x.state_bytes()) == (x as u16) as nat,
        x.rpc_bytes() == x.state_bytes().reverse(),
{
    assert(((x as u16) as nat) < pow256(2)) by {
        reveal_with_fuel(pow256, 3);
    }
    lemma_le_roundtrip((x as u16) as nat, 2);
}

/// A `u32` is written in 4 bytes: in the State format least significant
/// first (its bytes read back as the value's 32-bit pattern), in the RPC
/// format the same bytes in reverse order.
pub proof fn law_u32_byte_order(x: u32)
    ensures
        x.state_bytes().len() == 4,
        le_value(x.state_bytes()) == (x as u32) as nat,
        x.rpc_bytes() == x.state_bytes().reverse(),
{
    assert(((x as u32) as nat) < pow256(4)) by {
        reveal_with_fuel(pow256, 5);
    }
    lemma_le_roundtrip((x as u32) as nat, 4);
}

/// A `i32` is written in 4 bytes: in the State format least significant
/// first (its bytes read back as the value's 32-bit pattern), in the RPC
/// format the same bytes in reverse order.
pub proof fn law_i32_byte_order(x: i32)
    ensures
        x.state_bytes().len() == 4,
        le_value(x.state_bytes()) == (x as u32) as nat,
        x.rpc_bytes() == x.state_bytes().reverse(),
{
    assert(((x as u32) as nat) < pow256(4)) by {
        reveal_with_fuel(pow256, 5);
    }
    lemma_le_roundtrip((x as u32) as nat, 4);
}

/// A `u64` is written in 8 bytes: in the State format least significant
/// first (its bytes read back as the value's 64-bit pattern), in the RPC
/// format the same bytes in reverse order.
pub proof fn law_u64_byte_order(x: u64)
    ensures
        x.state_bytes().len() == 8,
        le_value(x.state_bytes()) == (x as u64) as nat,
        x.rpc_bytes() == x.state_bytes().reverse(),
{
    assert(((x as u64) as nat) < pow256(8)) by {
        reveal_with_fuel(pow256, 9);
    }
    lemma_le_roundtrip((x as u64) as nat, 8);
}

/// A `i64` is written in 8 bytes: in the State format least significant
/// first (its bytes read back as the value's 64-bit pattern), in the RPC
/// format the same bytes in reverse order.
pub proof fn law_i64_byte_order(x: i64)
    ensures
        x.state_bytes().len() == 8,
        le_value(x.state_bytes()) == (x as u64) as nat,
        x.rpc_bytes() == x.state_bytes().reverse(),
{
    assert(((x as u64) as nat) < pow256(8)) by {
        reveal_with_fuel(pow256, 9);
    }
    lemma_le_roundtrip((x as u64) as nat, 8);
}

/// A `u128` is written in 16 bytes: in the State format least significant
/// first (its bytes read back as the value's 128-bit pattern), in the RPC
/// format the same bytes in reverse order.
pub proof fn law_u128_byte_order(x: u128)
    ensures
        x.state_bytes().len() == 16,
        le_value(x.state_bytes()) == (x as u128) as nat,
        x.rpc_bytes() == x.state_bytes().reverse(),
{
    assert(((x as u128) as nat) < pow256(16)) by {
        reveal_with_fuel(pow256, 17);
    }
    lemma_le_roundtrip((x as u128) as nat, 16);
}

/// A `i128` is written in 16 bytes: in the State format least significant
/// first (its bytes read back as the value's 128-bit pattern), in the RPC
/// format the same bytes in reverse order.
pub proof fn law_i128_byte_order(x: i128)
    ensures
        x.state_bytes().len() == 16,
        le_value(x.state_bytes()) == (x as u128) as nat,
        x.rpc_bytes() == x.state_bytes().reverse(),
{
    assert(((x as u128) as nat) < pow256(16)) by {
        reveal_with_fuel(pow256, 17);
    }
    lemma_le_roundtrip((x as u128) as nat, 16);
}

} // verus!
