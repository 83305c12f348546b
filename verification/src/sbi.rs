//! Secret-shared binary integers: the values a zero-knowledge computation works
//! on. Outside a computation they hold their value in the open.
use vstd::prelude::*;

use crate::traits::{ReadWriteState, StateCanonical};
use crate::zk::SecretBinaryFixedSize;

verus! {

/// A secret-shared binary integer of type `NT`.
#[derive(Copy, Clone, PartialEq, Eq, Debug)]
pub struct Sbi<NT> {
    secret: NT,
}

impl<NT> View for Sbi<NT> {
    type V = NT;

    /// The value.
    closed spec fn view(&self) -> NT {
        self.secret
    }
}

impl<NT> Sbi<NT> {
    /// The secret integer of the given value.
    pub fn from_value(secret: NT) -> (res: Self)
        ensures
            res@ == secret,
    {
        Sbi { secret }
    }
}

impl<NT> From<NT> for Sbi<NT> {
    fn from(secret: NT) -> (res: Self) {
        Sbi { secret }
    }
}

impl<NT> vstd::std_specs::convert::FromSpecImpl<NT> for Sbi<NT> {
    open spec fn obeys_from_spec() -> bool {
        true
    }

    closed spec fn from_spec(v: NT) -> Self {
        Sbi { secret: v }
    }
}

/// A secret 8-bit integer.
pub type Sbi8 = Sbi<i8>;

/// A secret 16-bit integer.
pub type Sbi16 = Sbi<i16>;

/// A secret 32-bit integer.
pub type Sbi32 = Sbi<i32>;

/// A secret 64-bit integer.
pub type Sbi64 = Sbi<i64>;

/// A secret 128-bit integer.
pub type Sbi128 = Sbi<i128>;

/// A secret bit.
pub type Sbi1 = bool;

impl SecretBinaryFixedSize for Sbi<i8> {
    open spec fn spec_bits() -> u32 {
        8
    }

    fn bits() -> (res: u32) {
        8
    }
}

impl DeepView for Sbi<i8> {
    type V = i8;

    closed spec fn deep_view(&self) -> i8 {
        self.secret
    }
}

impl ReadWriteState for Sbi<i8> {
    /// Written as the value, little-endian.
    closed spec fn state_bytes(&self) -> Seq<u8> {
        self.secret.state_bytes()
    }

    open spec fn state_representable(&self) -> bool {
        true
    }

    open spec fn state_parse(data: Seq<u8>) -> Option<(i8, nat)> {
        <i8 as ReadWriteState>::state_parse(data)
    }

    fn state_read_from(reader: &mut &[u8]) -> (res: Self) {
        let secret = <i8 as ReadWriteState>::state_read_from(reader);
        Sbi { secret }
    }

    fn state_write_to(&self, writer: &mut Vec<u8>) {
        self.secret.state_write_to(writer);
    }

    proof fn lemma_state_roundtrip(&self, rest: Seq<u8>) {
        self.secret.lemma_state_roundtrip(rest);
    }
}

impl Sbi<i8> {
    /// The sum, wrapping around on overflow.
    pub fn add(self, rhs: Self) -> (res: Self)
        ensures
            res@ == self@.wrapping_add(rhs@),
    {
        Sbi { secret: self.secret.wrapping_add(rhs.secret) }
    }

    /// The difference, wrapping around on overflow.
    pub fn sub(self, rhs: Self) -> (res: Self)
        ensures
            res@ == self@.wrapping_sub(rhs@),
    {
        Sbi { secret: self.secret.wrapping_sub(rhs.secret) }
    }

    /// The product, where it fits.
    pub fn mul(self, rhs: Self) -> (res: Self)
        requires
            i8::MIN <= self@ * rhs@ <= i8::MAX,
        ensures
            res@ == self@ * rhs@,
    {
        Sbi { secret: self.secret * rhs.secret }
    }

    /// Shifted left by `rhs` bits, the amount taken modulo the width.
    pub fn shl(self, rhs: usize) -> (res: Self)
        ensures
            res@ == self@.wrapping_shl(rhs as u32),
    {
        Sbi { secret: self.secret.wrapping_shl(rhs as u32) }
    }

    /// Shifted right by `rhs` bits, keeping the sign, the amount taken modulo
    /// the width.
    pub fn shr(self, rhs: usize) -> (res: Self)
        ensures
            res@ == self@.wrapping_shr(rhs as u32),
    {
        Sbi { secret: self.secret.wrapping_shr(rhs as u32) }
    }

    /// The bitwise and.
    pub fn bitand(self, rhs: Self) -> (res: Self)
        ensures
            res@ == self@ & rhs@,
    {
        Sbi { secret: self.secret & rhs.secret }
    }

    /// The bitwise or.
    pub fn bitor(self, rhs: Self) -> (res: Self)
        ensures
            res@ == self@ | rhs@,
    {
        Sbi { secret: self.secret | rhs.secret }
    }

    /// The bitwise exclusive or.
    pub fn bitxor(self, rhs: Self) -> (res: Self)
        ensures
            res@ == self@ ^ rhs@,
    {
        Sbi { secret: self.secret ^ rhs.secret }
    }

    /// Whether the value is less than that of `rhs`.
    pub fn lt(&self, rhs: &Self) -> (res: Sbi1)
        ensures
            res == (self@ < rhs@),
    {
        self.secret < rhs.secret
    }

    /// Whether the value is at most that of `rhs`.
    pub fn le(&self, rhs: &Self) -> (res: Sbi1)
        ensures
            res == (self@ <= rhs@),
    {
        self.secret <= rhs.secret
    }

    /// Whether the value is greater than that of `rhs`.
    pub fn gt(&self, rhs: &Self) -> (res: Sbi1)
        ensures
            res == (self@ > rhs@),
    {
        self.secret > rhs.secret
    }

    /// Whether the value is at least that of `rhs`.
    pub fn ge(&self, rhs: &Self) -> (res: Sbi1)
        ensures
            res == (self@ >= rhs@),
    {
        self.secret >= rhs.secret
    }

    /// How the value compares with that of `rhs`.
    pub fn partial_cmp(&self, rhs: &Self) -> (res: Option<core::cmp::Ordering>)
        ensures
            res == Some(
                if self@ < rhs@ {
                    core::cmp::Ordering::Less
                } else if self@ == rhs@ {
                    core::cmp::Ordering::Equal
                } else {
                    core::cmp::Ordering::Greater
                },
            ),
    {
        if self.secret < rhs.secret {
            Some(core::cmp::Ordering::Less)
        } else if self.secret == rhs.secret {
            Some(core::cmp::Ordering::Equal)
        } else {
            Some(core::cmp::Ordering::Greater)
        }
    }
}

impl SecretBinaryFixedSize for Sbi<i16> {
    open spec fn spec_bits() -> u32 {
        16
    }

    fn bits() -> (res: u32) {
        16
    }
}

impl DeepView for Sbi<i16> {
    type V = i16;

    closed spec fn deep_view(&self) -> i16 {
        self.secret
    }
}

impl ReadWriteState for Sbi<i16> {
    /// Written as the value, little-endian.
    closed spec fn state_bytes(&self) -> Seq<u8> {
        self.secret.state_bytes()
    }

    open spec fn state_representable(&self) -> bool {
        true
    }

    open spec fn state_parse(data: Seq<u8>) -> Option<(i16, nat)> {
        <i16 as ReadWriteState>::state_parse(data)
    }

    fn state_read_from(reader: &mut &[u8]) -> (res: Self) {
        let secret = <i16 as ReadWriteState>::state_read_from(reader);
        Sbi { secret }
    }

    fn state_write_to(&self, writer: &mut Vec<u8>) {
        self.secret.state_write_to(writer);
    }

    proof fn lemma_state_roundtrip(&self, rest: Seq<u8>) {
        self.secret.lemma_state_roundtrip(rest);
    }
}

impl Sbi<i16> {
    /// The sum, wrapping around on overflow.
    pub fn add(self, rhs: Self) -> (res: Self)
        ensures
            res@ == self@.wrapping_add(rhs@),
    {
        Sbi { secret: self.secret.wrapping_add(rhs.secret) }
    }

    /// The difference, wrapping around on overflow.
    pub fn sub(self, rhs: Self) -> (res: Self)
        ensures
            res@ == self@.wrapping_sub(rhs@),
    {
        Sbi { secret: self.secret.wrapping_sub(rhs.secret) }
    }

    /// The product, where it fits.
    pub fn mul(self, rhs: Self) -> (res: Self)
        requires
            i16::MIN <= self@ * rhs@ <= i16::MAX,
        ensures
            res@ == self@ * rhs@,
    {
        Sbi { secret: self.secret * rhs.secret }
    }

    /// Shifted left by `rhs` bits, the amount taken modulo the width.
    pub fn shl(self, rhs: usize) -> (res: Self)
        ensures
            res@ == self@.wrapping_shl(rhs as u32),
    {
        Sbi { secret: self.secret.wrapping_shl(rhs as u32) }
    }

    /// Shifted right by `rhs` bits, keeping the sign, the amount taken modulo
    /// the width.
    pub fn shr(self, rhs: usize) -> (res: Self)
        ensures
            res@ == self@.wrapping_shr(rhs as u32),
    {
        Sbi { secret: self.secret.wrapping_shr(rhs as u32) }
    }

    /// The bitwise and.
    pub fn bitand(self, rhs: Self) -> (res: Self)
        ensures
            res@ == self@ & rhs@,
    {
        Sbi { secret: self.secret & rhs.secret }
    }

    /// The bitwise or.
    pub fn bitor(self, rhs: Self) -> (res: Self)
        ensures
            res@ == self@ | rhs@,
    {
        Sbi { secret: self.secret | rhs.secret }
    }

    /// The bitwise exclusive or.
    pub fn bitxor(self, rhs: Self) -> (res: Self)
        ensures
            res@ == self@ ^ rhs@,
    {
        Sbi { secret: self.secret ^ rhs.secret }
    }

    /// Whether the value is less than that of `rhs`.
    pub fn lt(&self, rhs: &Self) -> (res: Sbi1)
        ensures
            res == (self@ < rhs@),
    {
        self.secret < rhs.secret
    }

    /// Whether the value is at most that of `rhs`.
    pub fn le(&self, rhs: &Self) -> (res: Sbi1)
        ensures
            res == (self@ <= rhs@),
    {
        self.secret <= rhs.secret
    }

    /// Whether the value is greater than that of `rhs`.
    pub fn gt(&self, rhs: &Self) -> (res: Sbi1)
        ensures
            res == (self@ > rhs@),
    {
        self.secret > rhs.secret
    }

    /// Whether the value is at least that of `rhs`.
    pub fn ge(&self, rhs: &Self) -> (res: Sbi1)
        ensures
            res == (self@ >= rhs@),
    {
        self.secret >= rhs.secret
    }

    /// How the value compares with that of `rhs`.
    pub fn partial_cmp(&self, rhs: &Self) -> (res: Option<core::cmp::Ordering>)
        ensures
            res == Some(
                if self@ < rhs@ {
                    core::cmp::Ordering::Less
                } else if self@ == rhs@ {
                    core::cmp::Ordering::Equal
                } else {
                    core::cmp::Ordering::Greater
                },
            ),
    {
        if self.secret < rhs.secret {
            Some(core::cmp::Ordering::Less)
        } else if self.secret == rhs.secret {
            Some(core::cmp::Ordering::Equal)
        } else {
            Some(core::cmp::Ordering::Greater)
        }
    }
}

impl SecretBinaryFixedSize for Sbi<i32> {
    open spec fn spec_bits() -> u32 {
        32
    }

    fn bits() -> (res: u32) {
        32
    }
}

impl DeepView for Sbi<i32> {
    type V = i32;

    closed spec fn deep_view(&self) -> i32 {
        self.secret
    }
}

impl ReadWriteState for Sbi<i32> {
    /// Written as the value, little-endian.
    closed spec fn state_bytes(&self) -> Seq<u8> {
        self.secret.state_bytes()
    }

    open spec fn state_representable(&self) -> bool {
        true
    }

    open spec fn state_parse(data: Seq<u8>) -> Option<(i32, nat)> {
        <i32 as ReadWriteState>::state_parse(data)
    }

    fn state_read_from(reader: &mut &[u8]) -> (res: Self) {
        let secret = <i32 as ReadWriteState>::state_read_from(reader);
        Sbi { secret }
    }

    fn state_write_to(&self, writer: &mut Vec<u8>) {
        self.secret.state_write_to(writer);
    }

    proof fn lemma_state_roundtrip(&self, rest: Seq<u8>) {
        self.secret.lemma_state_roundtrip(rest);
    }
}

impl Sbi<i32> {
    /// The sum, wrapping around on overflow.
    pub fn add(self, rhs: Self) -> (res: Self)
        ensures
            res@ == self@.wrapping_add(rhs@),
    {
        Sbi { secret: self.secret.wrapping_add(rhs.secret) }
    }

    /// The difference, wrapping around on overflow.
    pub fn sub(self, rhs: Self) -> (res: Self)
        ensures
            res@ == self@.wrapping_sub(rhs@),
    {
        Sbi { secret: self.secret.wrapping_sub(rhs.secret) }
    }

    /// The product, where it fits.
    pub fn mul(self, rhs: Self) -> (res: Self)
        requires
            i32::MIN <= self@ * rhs@ <= i32::MAX,
        ensures
            res@ == self@ * rhs@,
    {
        Sbi { secret: self.secret * rhs.secret }
    }

    /// Shifted left by `rhs` bits, the amount taken modulo the width.
    pub fn shl(self, rhs: usize) -> (res: Self)
        ensures
            res@ == self@.wrapping_shl(rhs as u32),
    {
        Sbi { secret: self.secret.wrapping_shl(rhs as u32) }
    }

    /// Shifted right by `rhs` bits, keeping the sign, the amount taken modulo
    /// the width.
    pub fn shr(self, rhs: usize) -> (res: Self)
        ensures
            res@ == self@.wrapping_shr(rhs as u32),
    {
        Sbi { secret: self.secret.wrapping_shr(rhs as u32) }
    }

    /// The bitwise and.
    pub fn bitand(self, rhs: Self) -> (res: Self)
        ensures
            res@ == self@ & rhs@,
    {
        Sbi { secret: self.secret & rhs.secret }
    }

    /// The bitwise or.
    pub fn bitor(self, rhs: Self) -> (res: Self)
        ensures
            res@ == self@ | rhs@,
    {
        Sbi { secret: self.secret | rhs.secret }
    }

    /// The bitwise exclusive or.
    pub fn bitxor(self, rhs: Self) -> (res: Self)
        ensures
            res@ == self@ ^ rhs@,
    {
        Sbi { secret: self.secret ^ rhs.secret }
    }

    /// Whether the value is less than that of `rhs`.
    pub fn lt(&self, rhs: &Self) -> (res: Sbi1)
        ensures
            res == (self@ < rhs@),
    {
        self.secret < rhs.secret
    }

    /// Whether the value is at most that of `rhs`.
    pub fn le(&self, rhs: &Self) -> (res: Sbi1)
        ensures
            res == (self@ <= rhs@),
    {
        self.secret <= rhs.secret
    }

    /// Whether the value is greater than that of `rhs`.
    pub fn gt(&self, rhs: &Self) -> (res: Sbi1)
        ensures
            res == (self@ > rhs@),
    {
        self.secret > rhs.secret
    }

    /// Whether the value is at least that of `rhs`.
    pub fn ge(&self, rhs: &Self) -> (res: Sbi1)
        ensures
            res == (self@ >= rhs@),
    {
        self.secret >= rhs.secret
    }

    /// How the value compares with that of `rhs`.
    pub fn partial_cmp(&self, rhs: &Self) -> (res: Option<core::cmp::Ordering>)
        ensures
            res == Some(
                if self@ < rhs@ {
                    core::cmp::Ordering::Less
                } else if self@ == rhs@ {
                    core::cmp::Ordering::Equal
                } else {
                    core::cmp::Ordering::Greater
                },
            ),
    {
        if self.secret < rhs.secret {
            Some(core::cmp::Ordering::Less)
        } else if self.secret == rhs.secret {
            Some(core::cmp::Ordering::Equal)
        } else {
            Some(core::cmp::Ordering::Greater)
        }
    }
}

impl SecretBinaryFixedSize for Sbi<i64> {
    open spec fn spec_bits() -> u32 {
        64
    }

    fn bits() -> (res: u32) {
        64
    }
}

impl DeepView for Sbi<i64> {
    type V = i64;

    closed spec fn deep_view(&self) -> i64 {
        self.secret
    }
}

impl ReadWriteState for Sbi<i64> {
    /// Written as the value, little-endian.
    closed spec fn state_bytes(&self) -> Seq<u8> {
        self.secret.state_bytes()
    }

    open spec fn state_representable(&self) -> bool {
        true
    }

    open spec fn state_parse(data: Seq<u8>) -> Option<(i64, nat)> {
        <i64 as ReadWriteState>::state_parse(data)
    }

    fn state_read_from(reader: &mut &[u8]) -> (res: Self) {
        let secret = <i64 as ReadWriteState>::state_read_from(reader);
        Sbi { secret }
    }

    fn state_write_to(&self, writer: &mut Vec<u8>) {
        self.secret.state_write_to(writer);
    }

    proof fn lemma_state_roundtrip(&self, rest: Seq<u8>) {
        self.secret.lemma_state_roundtrip(rest);
    }
}

impl Sbi<i64> {
    /// The sum, wrapping around on overflow.
    pub fn add(self, rhs: Self) -> (res: Self)
        ensures
            res@ == self@.wrapping_add(rhs@),
    {
        Sbi { secret: self.secret.wrapping_add(rhs.secret) }
    }

    /// The difference, wrapping around on overflow.
    pub fn sub(self, rhs: Self) -> (res: Self)
        ensures
            res@ == self@.wrapping_sub(rhs@),
    {
        Sbi { secret: self.secret.wrapping_sub(rhs.secret) }
    }

    /// The product, where it fits.
    pub fn mul(self, rhs: Self) -> (res: Self)
        requires
            i64::MIN <= self@ * rhs@ <= i64::MAX,
        ensures
            res@ == self@ * rhs@,
    {
        Sbi { secret: self.secret * rhs.secret }
    }

    /// Shifted left by `rhs` bits, the amount taken modulo the width.
    pub fn shl(self, rhs: usize) -> (res: Self)
        ensures
            res@ == self@.wrapping_shl(rhs as u32),
    {
        Sbi { secret: self.secret.wrapping_shl(rhs as u32) }
    }

    /// Shifted right by `rhs` bits, keeping the sign, the amount taken modulo
    /// the width.
    pub fn shr(self, rhs: usize) -> (res: Self)
        ensures
            res@ == self@.wrapping_shr(rhs as u32),
    {
        Sbi { secret: self.secret.wrapping_shr(rhs as u32) }
    }

    /// The bitwise and.
    pub fn bitand(self, rhs: Self) -> (res: Self)
        ensures
            res@ == self@ & rhs@,
    {
        Sbi { secret: self.secret & rhs.secret }
    }

    /// The bitwise or.
    pub fn bitor(self, rhs: Self) -> (res: Self)
        ensures
            res@ == self@ | rhs@,
    {
        Sbi { secret: self.secret | rhs.secret }
    }

    /// The bitwise exclusive or.
    pub fn bitxor(self, rhs: Self) -> (res: Self)
        ensures
            res@ == self@ ^ rhs@,
    {
        Sbi { secret: self.secret ^ rhs.secret }
    }

    /// Whether the value is less than that of `rhs`.
    pub fn lt(&self, rhs: &Self) -> (res: Sbi1)
        ensures
            res == (self@ < rhs@),
    {
        self.secret < rhs.secret
    }

    /// Whether the value is at most that of `rhs`.
    pub fn le(&self, rhs: &Self) -> (res: Sbi1)
        ensures
            res == (self@ <= rhs@),
    {
        self.secret <= rhs.secret
    }

    /// Whether the value is greater than that of `rhs`.
    pub fn gt(&self, rhs: &Self) -> (res: Sbi1)
        ensures
            res == (self@ > rhs@),
    {
        self.secret > rhs.secret
    }

    /// Whether the value is at least that of `rhs`.
    pub fn ge(&self, rhs: &Self) -> (res: Sbi1)
        ensures
            res == (self@ >= rhs@),
    {
        self.secret >= rhs.secret
    }

    /// How the value compares with that of `rhs`.
    pub fn partial_cmp(&self, rhs: &Self) -> (res: Option<core::cmp::Ordering>)
        ensures
            res == Some(
                if self@ < rhs@ {
                    core::cmp::Ordering::Less
                } else if self@ == rhs@ {
                    core::cmp::Ordering::Equal
                } else {
                    core::cmp::Ordering::Greater
                },
            ),
    {
        if self.secret < rhs.secret {
            Some(core::cmp::Ordering::Less)
        } else if self.secret == rhs.secret {
            Some(core::cmp::Ordering::Equal)
        } else {
            Some(core::cmp::Ordering::Greater)
        }
    }
}

impl SecretBinaryFixedSize for Sbi<i128> {
    open spec fn spec_bits() -> u32 {
        128
    }

    fn bits() -> (res: u32) {
        128
    }
}

impl DeepView for Sbi<i128> {
    type V = i128;

    closed spec fn deep_view(&self) -> i128 {
        self.secret
    }
}

impl ReadWriteState for Sbi<i128> {
    /// Written as the value, little-endian.
    closed spec fn state_bytes(&self) -> Seq<u8> {
        self.secret.state_bytes()
    }

    open spec fn state_representable(&self) -> bool {
        true
    }

    open spec fn state_parse(data: Seq<u8>) -> Option<(i128, nat)> {
        <i128 as ReadWriteState>::state_parse(data)
    }

    fn state_read_from(reader: &mut &[u8]) -> (res: Self) {
        let secret = <i128 as ReadWriteState>::state_read_from(reader);
        Sbi { secret }
    }

    fn state_write_to(&self, writer: &mut Vec<u8>) {
        self.secret.state_write_to(writer);
    }

    proof fn lemma_state_roundtrip(&self, rest: Seq<u8>) {
        self.secret.lemma_state_roundtrip(rest);
    }
}

impl Sbi<i128> {
    /// The sum, wrapping around on overflow.
    pub fn add(self, rhs: Self) -> (res: Self)
        ensures
            res@ == self@.wrapping_add(rhs@),
    {
        Sbi { secret: self.secret.wrapping_add(rhs.secret) }
    }

    /// The difference, wrapping around on overflow.
    pub fn sub(self, rhs: Self) -> (res: Self)
        ensures
            res@ == self@.wrapping_sub(rhs@),
    {
        Sbi { secret: self.secret.wrapping_sub(rhs.secret) }
    }

    /// The product, where it fits.
    pub fn mul(self, rhs: Self) -> (res: Self)
        requires
            i128::MIN <= self@ * rhs@ <= i128::MAX,
        ensures
            res@ == self@ * rhs@,
    {
        Sbi { secret: self.secret * rhs.secret }
    }

    /// Shifted left by `rhs` bits, the amount taken modulo the width.
    pub fn shl(self, rhs: usize) -> (res: Self)
        ensures
            res@ == self@.wrapping_shl(rhs as u32),
    {
        Sbi { secret: self.secret.wrapping_shl(rhs as u32) }
    }

    /// Shifted right by `rhs` bits, keeping the sign, the amount taken modulo
    /// the width.
    pub fn shr(self, rhs: usize) -> (res: Self)
        ensures
            res@ == self@.wrapping_shr(rhs as u32),
    {
        Sbi { secret: self.secret.wrapping_shr(rhs as u32) }
    }

    /// The bitwise and.
    pub fn bitand(self, rhs: Self) -> (res: Self)
        ensures
            res@ == self@ & rhs@,
    {
        Sbi { secret: self.secret & rhs.secret }
    }

    /// The bitwise or.
    pub fn bitor(self, rhs: Self) -> (res: Self)
        ensures
            res@ == self@ | rhs@,
    {
        Sbi { secret: self.secret | rhs.secret }
    }

    /// The bitwise exclusive or.
    pub fn bitxor(self, rhs: Self) -> (res: Self)
        ensures
            res@ == self@ ^ rhs@,
    {
        Sbi { secret: self.secret ^ rhs.secret }
    }

    /// Whether the value is less than that of `rhs`.
    pub fn lt(&self, rhs: &Self) -> (res: Sbi1)
        ensures
            res == (self@ < rhs@),
    {
        self.secret < rhs.secret
    }

    /// Whether the value is at most that of `rhs`.
    pub fn le(&self, rhs: &Self) -> (res: Sbi1)
        ensures
            res == (self@ <= rhs@),
    {
        self.secret <= rhs.secret
    }

    /// Whether the value is greater than that of `rhs`.
    pub fn gt(&self, rhs: &Self) -> (res: Sbi1)
        ensures
            res == (self@ > rhs@),
    {
        self.secret > rhs.secret
    }

    /// Whether the value is at least that of `rhs`.
    pub fn ge(&self, rhs: &Self) -> (res: Sbi1)
        ensures
            res == (self@ >= rhs@),
    {
        self.secret >= rhs.secret
    }

    /// How the value compares with that of `rhs`.
    pub fn partial_cmp(&self, rhs: &Self) -> (res: Option<core::cmp::Ordering>)
        ensures
            res == Some(
                if self@ < rhs@ {
                    core::cmp::Ordering::Less
                } else if self@ == rhs@ {
                    core::cmp::Ordering::Equal
                } else {
                    core::cmp::Ordering::Greater
                },
            ),
    {
        if self.secret < rhs.secret {
            Some(core::cmp::Ordering::Less)
        } else if self.secret == rhs.secret {
            Some(core::cmp::Ordering::Equal)
        } else {
            Some(core::cmp::Ordering::Greater)
        }
    }
}


/// Conversions between a value and its bits, least significant first.
pub trait FromToBits: Sized {
    /// The bits of a value.
    type BitsType;

    /// The bits of `self`, least significant first.
    spec fn value_bits(self) -> Seq<bool>;

    /// The bits held by `bits`, least significant first.
    spec fn bits_seq(bits: Self::BitsType) -> Seq<bool>;

    /// The bits of the value, least significant first.
    fn to_le_bits(self) -> (res: Self::BitsType)
        ensures
            Self::bits_seq(res) == self.value_bits(),
    ;

    /// The value of the given bits, least significant first.
    fn from_le_bits(bits: Self::BitsType) -> (res: Self)
        ensures
            res.value_bits() == Self::bits_seq(bits),
    ;

    /// A value is determined by its bits.
    proof fn lemma_bits_determine(a: Self, b: Self)
        requires
            a.value_bits() == b.value_bits(),
        ensures
            a == b,
    ;
}

/// Reading back the bits of a value gives the value again.
pub proof fn law_from_le_bits_undoes_to_le_bits<T: FromToBits>(value: T, bits: T::BitsType, back: T)
    requires
        T::bits_seq(bits) == value.value_bits(),
        back.value_bits() == T::bits_seq(bits),
    ensures
        back == value,
{
    T::lemma_bits_determine(back, value);
}

/// The bits of a value made from bits are those bits.
pub proof fn law_to_le_bits_undoes_from_le_bits<T: FromToBits>(bits: T::BitsType, value: T, again: T::BitsType)
    requires
        value.value_bits() == T::bits_seq(bits),
        T::bits_seq(again) == value.value_bits(),
    ensures
        T::bits_seq(again) == T::bits_seq(bits),
{
}

/// Bit `i` of `x`.
pub open spec fn bit_u8(x: u8, i: u8) -> bool {
    (x >> i) & 1u8 == 1u8
}

/// Setting bit `i` of `acc` sets that bit alone.
proof fn lemma_set_bit_u8(acc: u8, i: u8)
    by (bit_vector)
    requires
        i < 8,
    ensures
        forall|j: u8| j < 8 ==> #[trigger] bit_u8(acc | (1u8 << i), j) == (bit_u8(acc, j) || j == i),
{
}

/// Values with the same bits are equal.
proof fn lemma_bits_ext_u8(a: u8, b: u8)
    by (bit_vector)
    requires
        bit_u8(a, 0u8) == bit_u8(b, 0u8),
        bit_u8(a, 1u8) == bit_u8(b, 1u8),
        bit_u8(a, 2u8) == bit_u8(b, 2u8),
        bit_u8(a, 3u8) == bit_u8(b, 3u8),
        bit_u8(a, 4u8) == bit_u8(b, 4u8),
        bit_u8(a, 5u8) == bit_u8(b, 5u8),
        bit_u8(a, 6u8) == bit_u8(b, 6u8),
        bit_u8(a, 7u8) == bit_u8(b, 7u8),
    ensures
        a == b,
{
}

/// The reinterpretations between signed and unsigned undo each other.
proof fn lemma_cast_u8(x: u8, y: i8)
    by (bit_vector)
    ensures
        ((x as i8) as u8) == x,
        ((y as u8) as i8) == y,
{
}

impl FromToBits for Sbi<i8> {
    type BitsType = [Sbi1; 8];

    closed spec fn value_bits(self) -> Seq<bool> {
        Seq::new(8, |i: int| bit_u8(self.secret as u8, i as u8))
    }

    open spec fn bits_seq(bits: [Sbi1; 8]) -> Seq<bool> {
        bits@
    }

    fn to_le_bits(self) -> (res: [Sbi1; 8]) {
        let x = self.secret as u8;
        let mut bits: [Sbi1; 8] = [false; 8];
        let mut i: usize = 0;
        while i < 8
            invariant
                i <= 8,
                x == self.secret as u8,
                bits@.len() == 8,
                forall|j: int| 0 <= j < i ==> bits@[j] == bit_u8(x, j as u8),
            decreases 8 - i,
        {
            bits[i] = (x >> (i as u8)) & 1 == 1;
            i = i + 1;
        }
        assert(bits@ =~= self.value_bits());
        bits
    }

    fn from_le_bits(bits: [Sbi1; 8]) -> (res: Self) {
        let mut acc: u8 = 0;
        proof {
            assert forall|j: u8| j < 8 implies !bit_u8(0, j) by {
                assert(!bit_u8(0, j)) by (bit_vector);
            }
        }
        let mut i: usize = 0;
        while i < 8
            invariant
                i <= 8,
                bits@.len() == 8,
                forall|j: u8| j < i ==> bit_u8(acc, j) == bits@[j as int],
                forall|j: u8| i <= j < 8 ==> !bit_u8(acc, j),
            decreases 8 - i,
        {
            if bits[i] {
                proof {
                    lemma_set_bit_u8(acc, i as u8);
                }
                acc = acc | (1 << (i as u8));
            }
            i = i + 1;
        }
        proof {
            lemma_cast_u8(acc, 0);
        }
        let res = Sbi { secret: acc as i8 };
        assert(res.value_bits() =~= bits@);
        res
    }

    proof fn lemma_bits_determine(a: Self, b: Self) {
        let x = a.secret as u8;
        let y = b.secret as u8;
        assert(a.value_bits()[0] == bit_u8(x, 0u8) && b.value_bits()[0] == bit_u8(y, 0u8));
        assert(a.value_bits()[1] == bit_u8(x, 1u8) && b.value_bits()[1] == bit_u8(y, 1u8));
        assert(a.value_bits()[2] == bit_u8(x, 2u8) && b.value_bits()[2] == bit_u8(y, 2u8));
        assert(a.value_bits()[3] == bit_u8(x, 3u8) && b.value_bits()[3] == bit_u8(y, 3u8));
        assert(a.value_bits()[4] == bit_u8(x, 4u8) && b.value_bits()[4] == bit_u8(y, 4u8));
        assert(a.value_bits()[5] == bit_u8(x, 5u8) && b.value_bits()[5] == bit_u8(y, 5u8));
        assert(a.value_bits()[6] == bit_u8(x, 6u8) && b.value_bits()[6] == bit_u8(y, 6u8));
        assert(a.value_bits()[7] == bit_u8(x, 7u8) && b.value_bits()[7] == bit_u8(y, 7u8));
        lemma_bits_ext_u8(x, y);
        lemma_cast_u8(a.secret as u8, a.secret);
        lemma_cast_u8(b.secret as u8, b.secret);
    }
}

/// Bit `i` of `x`.
pub open spec fn bit_u16(x: u16, i: u16) -> bool {
    (x >> i) & 1u16 == 1u16
}

/// Setting bit `i` of `acc` sets that bit alone.
proof fn lemma_set_bit_u16(acc: u16, i: u16)
    by (bit_vector)
    requires
        i < 16,
    ensures
        forall|j: u16| j < 16 ==> #[trigger] bit_u16(acc | (1u16 << i), j) == (bit_u16(acc, j) || j == i),
{
}

/// Values with the same bits are equal.
proof fn lemma_bits_ext_u16(a: u16, b: u16)
    by (bit_vector)
    requires
        bit_u16(a, 0u16) == bit_u16(b, 0u16),
        bit_u16(a, 1u16) == bit_u16(b, 1u16),
        bit_u16(a, 2u16) == bit_u16(b, 2u16),
        bit_u16(a, 3u16) == bit_u16(b, 3u16),
        bit_u16(a, 4u16) == bit_u16(b, 4u16),
        bit_u16(a, 5u16) == bit_u16(b, 5u16),
        bit_u16(a, 6u16) == bit_u16(b, 6u16),
        bit_u16(a, 7u16) == bit_u16(b, 7u16),
        bit_u16(a, 8u16) == bit_u16(b, 8u16),
        bit_u16(a, 9u16) == bit_u16(b, 9u16),
        bit_u16(a, 10u16) == bit_u16(b, 10u16),
        bit_u16(a, 11u16) == bit_u16(b, 11u16),
        bit_u16(a, 12u16) == bit_u16(b, 12u16),
        bit_u16(a, 13u16) == bit_u16(b, 13u16),
        bit_u16(a, 14u16) == bit_u16(b, 14u16),
        bit_u16(a, 15u16) == bit_u16(b, 15u16),
    ensures
        a == b,
{
}

/// The reinterpretations between signed and unsigned undo each other.
proof fn lemma_cast_u16(x: u16, y: i16)
    by (bit_vector)
    ensures
        ((x as i16) as u16) == x,
        ((y as u16) as i16) == y,
{
}

impl FromToBits for Sbi<i16> {
    type BitsType = [Sbi1; 16];

    closed spec fn value_bits(self) -> Seq<bool> {
        Seq::new(16, |i: int| bit_u16(self.secret as u16, i as u16))
    }

    open spec fn bits_seq(bits: [Sbi1; 16]) -> Seq<bool> {
        bits@
    }

    fn to_le_bits(self) -> (res: [Sbi1; 16]) {
        let x = self.secret as u16;
        let mut bits: [Sbi1; 16] = [false; 16];
        let mut i: usize = 0;
        while i < 16
            invariant
                i <= 16,
                x == self.secret as u16,
                bits@.len() == 16,
                forall|j: int| 0 <= j < i ==> bits@[j] == bit_u16(x, j as u16),
            decreases 16 - i,
        {
            bits[i] = (x >> (i as u16)) & 1 == 1;
            i = i + 1;
        }
        assert(bits@ =~= self.value_bits());
        bits
    }

    fn from_le_bits(bits: [Sbi1; 16]) -> (res: Self) {
        let mut acc: u16 = 0;
        proof {
            assert forall|j: u16| j < 16 implies !bit_u16(0, j) by {
                assert(!bit_u16(0, j)) by (bit_vector);
            }
        }
        let mut i: usize = 0;
        while i < 16
            invariant
                i <= 16,
                bits@.len() == 16,
                forall|j: u16| j < i ==> bit_u16(acc, j) == bits@[j as int],
                forall|j: u16| i <= j < 16 ==> !bit_u16(acc, j),
            decreases 16 - i,
        {
            if bits[i] {
                proof {
                    lemma_set_bit_u16(acc, i as u16);
                }
                acc = acc | (1 << (i as u16));
            }
            i = i + 1;
        }
        proof {
            lemma_cast_u16(acc, 0);
        }
        let res = Sbi { secret: acc as i16 };
        assert(res.value_bits() =~= bits@);
        res
    }

    proof fn lemma_bits_determine(a: Self, b: Self) {
        let x = a.secret as u16;
        let y = b.secret as u16;
        assert(a.value_bits()[0] == bit_u16(x, 0u16) && b.value_bits()[0] == bit_u16(y, 0u16));
        assert(a.value_bits()[1] == bit_u16(x, 1u16) && b.value_bits()[1] == bit_u16(y, 1u16));
        assert(a.value_bits()[2] == bit_u16(x, 2u16) && b.value_bits()[2] == bit_u16(y, 2u16));
        assert(a.value_bits()[3] == bit_u16(x, 3u16) && b.value_bits()[3] == bit_u16(y, 3u16));
        assert(a.value_bits()[4] == bit_u16(x, 4u16) && b.value_bits()[4] == bit_u16(y, 4u16));
        assert(a.value_bits()[5] == bit_u16(x, 5u16) && b.value_bits()[5] == bit_u16(y, 5u16));
        assert(a.value_bits()[6] == bit_u16(x, 6u16) && b.value_bits()[6] == bit_u16(y, 6u16));
        assert(a.value_bits()[7] == bit_u16(x, 7u16) && b.value_bits()[7] == bit_u16(y, 7u16));
        assert(a.value_bits()[8] == bit_u16(x, 8u16) && b.value_bits()[8] == bit_u16(y, 8u16));
        assert(a.value_bits()[9] == bit_u16(x, 9u16) && b.value_bits()[9] == bit_u16(y, 9u16));
        assert(a.value_bits()[10] == bit_u16(x, 10u16) && b.value_bits()[10] == bit_u16(y, 10u16));
        assert(a.value_bits()[11] == bit_u16(x, 11u16) && b.value_bits()[11] == bit_u16(y, 11u16));
        assert(a.value_bits()[12] == bit_u16(x, 12u16) && b.value_bits()[12] == bit_u16(y, 12u16));
        assert(a.value_bits()[13] == bit_u16(x, 13u16) && b.value_bits()[13] == bit_u16(y, 13u16));
        assert(a.value_bits()[14] == bit_u16(x, 14u16) && b.value_bits()[14] == bit_u16(y, 14u16));
        assert(a.value_bits()[15] == bit_u16(x, 15u16) && b.value_bits()[15] == bit_u16(y, 15u16));
        lemma_bits_ext_u16(x, y);
        lemma_cast_u16(a.secret as u16, a.secret);
        lemma_cast_u16(b.secret as u16, b.secret);
    }
}

/// Bit `i` of `x`.
pub open spec fn bit_u32(x: u32, i: u32) -> bool {
    (x >> i) & 1u32 == 1u32
}

/// Setting bit `i` of `acc` sets that bit alone.
proof fn lemma_set_bit_u32(acc: u32, i: u32)
    by (bit_vector)
    requires
        i < 32,
    ensures
        forall|j: u32| j < 32 ==> #[trigger] bit_u32(acc | (1u32 << i), j) == (bit_u32(acc, j) || j == i),
{
}

/// Values with the same bits are equal.
proof fn lemma_bits_ext_u32(a: u32, b: u32)
    by (bit_vector)
    requires
        bit_u32(a, 0u32) == bit_u32(b, 0u32),
        bit_u32(a, 1u32) == bit_u32(b, 1u32),
        bit_u32(a, 2u32) == bit_u32(b, 2u32),
        bit_u32(a, 3u32) == bit_u32(b, 3u32),
        bit_u32(a, 4u32) == bit_u32(b, 4u32),
        bit_u32(a, 5u32) == bit_u32(b, 5u32),
        bit_u32(a, 6u32) == bit_u32(b, 6u32),
        bit_u32(a, 7u32) == bit_u32(b, 7u32),
        bit_u32(a, 8u32) == bit_u32(b, 8u32),
        bit_u32(a, 9u32) == bit_u32(b, 9u32),
        bit_u32(a, 10u32) == bit_u32(b, 10u32),
        bit_u32(a, 11u32) == bit_u32(b, 11u32),
        bit_u32(a, 12u32) == bit_u32(b, 12u32),
        bit_u32(a, 13u32) == bit_u32(b, 13u32),
        bit_u32(a, 14u32) == bit_u32(b, 14u32),
        bit_u32(a, 15u32) == bit_u32(b, 15u32),
        bit_u32(a, 16u32) == bit_u32(b, 16u32),
        bit_u32(a, 17u32) == bit_u32(b, 17u32),
        bit_u32(a, 18u32) == bit_u32(b, 18u32),
        bit_u32(a, 19u32) == bit_u32(b, 19u32),
        bit_u32(a, 20u32) == bit_u32(b, 20u32),
        bit_u32(a, 21u32) == bit_u32(b, 21u32),
        bit_u32(a, 22u32) == bit_u32(b, 22u32),
        bit_u32(a, 23u32) == bit_u32(b, 23u32),
        bit_u32(a, 24u32) == bit_u32(b, 24u32),
        bit_u32(a, 25u32) == bit_u32(b, 25u32),
        bit_u32(a, 26u32) == bit_u32(b, 26u32),
        bit_u32(a, 27u32) == bit_u32(b, 27u32),
        bit_u32(a, 28u32) == bit_u32(b, 28u32),
        bit_u32(a, 29u32) == bit_u32(b, 29u32),
        bit_u32(a, 30u32) == bit_u32(b, 30u32),
        bit_u32(a, 31u32) == bit_u32(b, 31u32),
    ensures
        a == b,
{
}

/// The reinterpretations between signed and unsigned undo each other.
proof fn lemma_cast_u32(x: u32, y: i32)
    by (bit_vector)
    ensures
        ((x as i32) as u32) == x,
        ((y as u32) as i32) == y,
{
}

impl FromToBits for Sbi<i32> {
    type BitsType = [Sbi1; 32];

    closed spec fn value_bits(self) -> Seq<bool> {
        Seq::new(32, |i: int| bit_u32(self.secret as u32, i as u32))
    }

    open spec fn bits_seq(bits: [Sbi1; 32]) -> Seq<bool> {
        bits@
    }

    fn to_le_bits(self) -> (res: [Sbi1; 32]) {
        let x = self.secret as u32;
        let mut bits: [Sbi1; 32] = [false; 32];
        let mut i: usize = 0;
        while i < 32
            invariant
                i <= 32,
                x == self.secret as u32,
                bits@.len() == 32,
                forall|j: int| 0 <= j < i ==> bits@[j] == bit_u32(x, j as u32),
            decreases 32 - i,
        {
            bits[i] = (x >> (i as u32)) & 1 == 1;
            i = i + 1;
        }
        assert(bits@ =~= self.value_bits());
        bits
    }

    fn from_le_bits(bits: [Sbi1; 32]) -> (res: Self) {
        let mut acc: u32 = 0;
        proof {
            assert forall|j: u32| j < 32 implies !bit_u32(0, j) by {
                assert(!bit_u32(0, j)) by (bit_vector);
            }
        }
        let mut i: usize = 0;
        while i < 32
            invariant
                i <= 32,
                bits@.len() == 32,
                forall|j: u32| j < i ==> bit_u32(acc, j) == bits@[j as int],
                forall|j: u32| i <= j < 32 ==> !bit_u32(acc, j),
            decreases 32 - i,
        {
            if bits[i] {
                proof {
                    lemma_set_bit_u32(acc, i as u32);
                }
                acc = acc | (1 << (i as u32));
            }
            i = i + 1;
        }
        proof {
            lemma_cast_u32(acc, 0);
        }
        let res = Sbi { secret: acc as i32 };
        assert(res.value_bits() =~= bits@);
        res
    }

    proof fn lemma_bits_determine(a: Self, b: Self) {
        let x = a.secret as u32;
        let y = b.secret as u32;
        assert(a.value_bits()[0] == bit_u32(x, 0u32) && b.value_bits()[0] == bit_u32(y, 0u32));
        assert(a.value_bits()[1] == bit_u32(x, 1u32) && b.value_bits()[1] == bit_u32(y, 1u32));
        assert(a.value_bits()[2] == bit_u32(x, 2u32) && b.value_bits()[2] == bit_u32(y, 2u32));
        assert(a.value_bits()[3] == bit_u32(x, 3u32) && b.value_bits()[3] == bit_u32(y, 3u32));
        assert(a.value_bits()[4] == bit_u32(x, 4u32) && b.value_bits()[4] == bit_u32(y, 4u32));
        assert(a.value_bits()[5] == bit_u32(x, 5u32) && b.value_bits()[5] == bit_u32(y, 5u32));
        assert(a.value_bits()[6] == bit_u32(x, 6u32) && b.value_bits()[6] == bit_u32(y, 6u32));
        assert(a.value_bits()[7] == bit_u32(x, 7u32) && b.value_bits()[7] == bit_u32(y, 7u32));
        assert(a.value_bits()[8] == bit_u32(x, 8u32) && b.value_bits()[8] == bit_u32(y, 8u32));
        assert(a.value_bits()[9] == bit_u32(x, 9u32) && b.value_bits()[9] == bit_u32(y, 9u32));
        assert(a.value_bits()[10] == bit_u32(x, 10u32) && b.value_bits()[10] == bit_u32(y, 10u32));
        assert(a.value_bits()[11] == bit_u32(x, 11u32) && b.value_bits()[11] == bit_u32(y, 11u32));
        assert(a.value_bits()[12] == bit_u32(x, 12u32) && b.value_bits()[12] == bit_u32(y, 12u32));
        assert(a.value_bits()[13] == bit_u32(x, 13u32) && b.value_bits()[13] == bit_u32(y, 13u32));
        assert(a.value_bits()[14] == bit_u32(x, 14u32) && b.value_bits()[14] == bit_u32(y, 14u32));
        assert(a.value_bits()[15] == bit_u32(x, 15u32) && b.value_bits()[15] == bit_u32(y, 15u32));
        assert(a.value_bits()[16] == bit_u32(x, 16u32) && b.value_bits()[16] == bit_u32(y, 16u32));
        assert(a.value_bits()[17] == bit_u32(x, 17u32) && b.value_bits()[17] == bit_u32(y, 17u32));
        assert(a.value_bits()[18] == bit_u32(x, 18u32) && b.value_bits()[18] == bit_u32(y, 18u32));
        assert(a.value_bits()[19] == bit_u32(x, 19u32) && b.value_bits()[19] == bit_u32(y, 19u32));
        assert(a.value_bits()[20] == bit_u32(x, 20u32) && b.value_bits()[20] == bit_u32(y, 20u32));
        assert(a.value_bits()[21] == bit_u32(x, 21u32) && b.value_bits()[21] == bit_u32(y, 21u32));
        assert(a.value_bits()[22] == bit_u32(x, 22u32) && b.value_bits()[22] == bit_u32(y, 22u32));
        assert(a.value_bits()[23] == bit_u32(x, 23u32) && b.value_bits()[23] == bit_u32(y, 23u32));
        assert(a.value_bits()[24] == bit_u32(x, 24u32) && b.value_bits()[24] == bit_u32(y, 24u32));
        assert(a.value_bits()[25] == bit_u32(x, 25u32) && b.value_bits()[25] == bit_u32(y, 25u32));
        assert(a.value_bits()[26] == bit_u32(x, 26u32) && b.value_bits()[26] == bit_u32(y, 26u32));
        assert(a.value_bits()[27] == bit_u32(x, 27u32) && b.value_bits()[27] == bit_u32(y, 27u32));
        assert(a.value_bits()[28] == bit_u32(x, 28u32) && b.value_bits()[28] == bit_u32(y, 28u32));
        assert(a.value_bits()[29] == bit_u32(x, 29u32) && b.value_bits()[29] == bit_u32(y, 29u32));
        assert(a.value_bits()[30] == bit_u32(x, 30u32) && b.value_bits()[30] == bit_u32(y, 30u32));
        assert(a.value_bits()[31] == bit_u32(x, 31u32) && b.value_bits()[31] == bit_u32(y, 31u32));
        lemma_bits_ext_u32(x, y);
        lemma_cast_u32(a.secret as u32, a.secret);
        lemma_cast_u32(b.secret as u32, b.secret);
    }
}

/// Bit `i` of `x`.
pub open spec fn bit_u64(x: u64, i: u64) -> bool {
    (x >> i) & 1u64 == 1u64
}

/// Setting bit `i` of `acc` sets that bit alone.
proof fn lemma_set_bit_u64(acc: u64, i: u64)
    by (bit_vector)
    requires
        i < 64,
    ensures
        forall|j: u64| j < 64 ==> #[trigger] bit_u64(acc | (1u64 << i), j) == (bit_u64(acc, j) || j == i),
{
}

/// Values with the same bits are equal.
proof fn lemma_bits_ext_u64(a: u64, b: u64)
    by (bit_vector)
    requires
        bit_u64(a, 0u64) == bit_u64(b, 0u64),
        bit_u64(a, 1u64) == bit_u64(b, 1u64),
        bit_u64(a, 2u64) == bit_u64(b, 2u64),
        bit_u64(a, 3u64) == bit_u64(b, 3u64),
        bit_u64(a, 4u64) == bit_u64(b, 4u64),
        bit_u64(a, 5u64) == bit_u64(b, 5u64),
        bit_u64(a, 6u64) == bit_u64(b, 6u64),
        bit_u64(a, 7u64) == bit_u64(b, 7u64),
        bit_u64(a, 8u64) == bit_u64(b, 8u64),
        bit_u64(a, 9u64) == bit_u64(b, 9u64),
        bit_u64(a, 10u64) == bit_u64(b, 10u64),
        bit_u64(a, 11u64) == bit_u64(b, 11u64),
        bit_u64(a, 12u64) == bit_u64(b, 12u64),
        bit_u64(a, 13u64) == bit_u64(b, 13u64),
        bit_u64(a, 14u64) == bit_u64(b, 14u64),
        bit_u64(a, 15u64) == bit_u64(b, 15u64),
        bit_u64(a, 16u64) == bit_u64(b, 16u64),
        bit_u64(a, 17u64) == bit_u64(b, 17u64),
        bit_u64(a, 18u64) == bit_u64(b, 18u64),
        bit_u64(a, 19u64) == bit_u64(b, 19u64),
        bit_u64(a, 20u64) == bit_u64(b, 20u64),
        bit_u64(a, 21u64) == bit_u64(b, 21u64),
        bit_u64(a, 22u64) == bit_u64(b, 22u64),
        bit_u64(a, 23u64) == bit_u64(b, 23u64),
        bit_u64(a, 24u64) == bit_u64(b, 24u64),
        bit_u64(a, 25u64) == bit_u64(b, 25u64),
        bit_u64(a, 26u64) == bit_u64(b, 26u64),
        bit_u64(a, 27u64) == bit_u64(b, 27u64),
        bit_u64(a, 28u64) == bit_u64(b, 28u64),
        bit_u64(a, 29u64) == bit_u64(b, 29u64),
        bit_u64(a, 30u64) == bit_u64(b, 30u64),
        bit_u64(a, 31u64) == bit_u64(b, 31u64),
        bit_u64(a, 32u64) == bit_u64(b, 32u64),
        bit_u64(a, 33u64) == bit_u64(b, 33u64),
        bit_u64(a, 34u64) == bit_u64(b, 34u64),
        bit_u64(a, 35u64) == bit_u64(b, 35u64),
        bit_u64(a, 36u64) == bit_u64(b, 36u64),
        bit_u64(a, 37u64) == bit_u64(b, 37u64),
        bit_u64(a, 38u64) == bit_u64(b, 38u64),
        bit_u64(a, 39u64) == bit_u64(b, 39u64),
        bit_u64(a, 40u64) == bit_u64(b, 40u64),
        bit_u64(a, 41u64) == bit_u64(b, 41u64),
        bit_u64(a, 42u64) == bit_u64(b, 42u64),
        bit_u64(a, 43u64) == bit_u64(b, 43u64),
        bit_u64(a, 44u64) == bit_u64(b, 44u64),
        bit_u64(a, 45u64) == bit_u64(b, 45u64),
        bit_u64(a, 46u64) == bit_u64(b, 46u64),
        bit_u64(a, 47u64) == bit_u64(b, 47u64),
        bit_u64(a, 48u64) == bit_u64(b, 48u64),
        bit_u64(a, 49u64) == bit_u64(b, 49u64),
        bit_u64(a, 50u64) == bit_u64(b, 50u64),
        bit_u64(a, 51u64) == bit_u64(b, 51u64),
        bit_u64(a, 52u64) == bit_u64(b, 52u64),
        bit_u64(a, 53u64) == bit_u64(b, 53u64),
        bit_u64(a, 54u64) == bit_u64(b, 54u64),
        bit_u64(a, 55u64) == bit_u64(b, 55u64),
        bit_u64(a, 56u64) == bit_u64(b, 56u64),
        bit_u64(a, 57u64) == bit_u64(b, 57u64),
        bit_u64(a, 58u64) == bit_u64(b, 58u64),
        bit_u64(a, 59u64) == bit_u64(b, 59u64),
        bit_u64(a, 60u64) == bit_u64(b, 60u64),
        bit_u64(a, 61u64) == bit_u64(b, 61u64),
        bit_u64(a, 62u64) == bit_u64(b, 62u64),
        bit_u64(a, 63u64) == bit_u64(b, 63u64),
    ensures
        a == b,
{
}

/// The reinterpretations between signed and unsigned undo each other.
proof fn lemma_cast_u64(x: u64, y: i64)
    by (bit_vector)
    ensures
        ((x as i64) as u64) == x,
        ((y as u64) as i64) == y,
{
}

impl FromToBits for Sbi<i64> {
    type BitsType = [Sbi1; 64];

    closed spec fn value_bits(self) -> Seq<bool> {
        Seq::new(64, |i: int| bit_u64(self.secret as u64, i as u64))
    }

    open spec fn bits_seq(bits: [Sbi1; 64]) -> Seq<bool> {
        bits@
    }

    fn to_le_bits(self) -> (res: [Sbi1; 64]) {
        let x = self.secret as u64;
        let mut bits: [Sbi1; 64] = [false; 64];
        let mut i: usize = 0;
        while i < 64
            invariant
                i <= 64,
                x == self.secret as u64,
                bits@.len() == 64,
                forall|j: int| 0 <= j < i ==> bits@[j] == bit_u64(x, j as u64),
            decreases 64 - i,
        {
            bits[i] = (x >> (i as u64)) & 1 == 1;
            i = i + 1;
        }
        assert(bits@ =~= self.value_bits());
        bits
    }

    fn from_le_bits(bits: [Sbi1; 64]) -> (res: Self) {
        let mut acc: u64 = 0;
        proof {
            assert forall|j: u64| j < 64 implies !bit_u64(0, j) by {
                assert(!bit_u64(0, j)) by (bit_vector);
            }
        }
        let mut i: usize = 0;
        while i < 64
            invariant
                i <= 64,
                bits@.len() == 64,
                forall|j: u64| j < i ==> bit_u64(acc, j) == bits@[j as int],
                forall|j: u64| i <= j < 64 ==> !bit_u64(acc, j),
            decreases 64 - i,
        {
            if bits[i] {
                proof {
                    lemma_set_bit_u64(acc, i as u64);
                }
                acc = acc | (1 << (i as u64));
            }
            i = i + 1;
        }
        proof {
            lemma_cast_u64(acc, 0);
        }
        let res = Sbi { secret: acc as i64 };
        assert(res.value_bits() =~= bits@);
        res
    }

    proof fn lemma_bits_determine(a: Self, b: Self) {
        let x = a.secret as u64;
        let y = b.secret as u64;
        assert(a.value_bits()[0] == bit_u64(x, 0u64) && b.value_bits()[0] == bit_u64(y, 0u64));
        assert(a.value_bits()[1] == bit_u64(x, 1u64) && b.value_bits()[1] == bit_u64(y, 1u64));
        assert(a.value_bits()[2] == bit_u64(x, 2u64) && b.value_bits()[2] == bit_u64(y, 2u64));
        assert(a.value_bits()[3] == bit_u64(x, 3u64) && b.value_bits()[3] == bit_u64(y, 3u64));
        assert(a.value_bits()[4] == bit_u64(x, 4u64) && b.value_bits()[4] == bit_u64(y, 4u64));
        assert(a.value_bits()[5] == bit_u64(x, 5u64) && b.value_bits()[5] == bit_u64(y, 5u64));
        assert(a.value_bits()[6] == bit_u64(x, 6u64) && b.value_bits()[6] == bit_u64(y, 6u64));
        assert(a.value_bits()[7] == bit_u64(x, 7u64) && b.value_bits()[7] == bit_u64(y, 7u64));
        assert(a.value_bits()[8] == bit_u64(x, 8u64) && b.value_bits()[8] == bit_u64(y, 8u64));
        assert(a.value_bits()[9] == bit_u64(x, 9u64) && b.value_bits()[9] == bit_u64(y, 9u64));
        assert(a.value_bits()[10] == bit_u64(x, 10u64) && b.value_bits()[10] == bit_u64(y, 10u64));
        assert(a.value_bits()[11] == bit_u64(x, 11u64) && b.value_bits()[11] == bit_u64(y, 11u64));
        assert(a.value_bits()[12] == bit_u64(x, 12u64) && b.value_bits()[12] == bit_u64(y, 12u64));
        assert(a.value_bits()[13] == bit_u64(x, 13u64) && b.value_bits()[13] == bit_u64(y, 13u64));
        assert(a.value_bits()[14] == bit_u64(x, 14u64) && b.value_bits()[14] == bit_u64(y, 14u64));
        assert(a.value_bits()[15] == bit_u64(x, 15u64) && b.value_bits()[15] == bit_u64(y, 15u64));
        assert(a.value_bits()[16] == bit_u64(x, 16u64) && b.value_bits()[16] == bit_u64(y, 16u64));
        assert(a.value_bits()[17] == bit_u64(x, 17u64) && b.value_bits()[17] == bit_u64(y, 17u64));
        assert(a.value_bits()[18] == bit_u64(x, 18u64) && b.value_bits()[18] == bit_u64(y, 18u64));
        assert(a.value_bits()[19] == bit_u64(x, 19u64) && b.value_bits()[19] == bit_u64(y, 19u64));
        assert(a.value_bits()[20] == bit_u64(x, 20u64) && b.value_bits()[20] == bit_u64(y, 20u64));
        assert(a.value_bits()[21] == bit_u64(x, 21u64) && b.value_bits()[21] == bit_u64(y, 21u64));
        assert(a.value_bits()[22] == bit_u64(x, 22u64) && b.value_bits()[22] == bit_u64(y, 22u64));
        assert(a.value_bits()[23] == bit_u64(x, 23u64) && b.value_bits()[23] == bit_u64(y, 23u64));
        assert(a.value_bits()[24] == bit_u64(x, 24u64) && b.value_bits()[24] == bit_u64(y, 24u64));
        assert(a.value_bits()[25] == bit_u64(x, 25u64) && b.value_bits()[25] == bit_u64(y, 25u64));
        assert(a.value_bits()[26] == bit_u64(x, 26u64) && b.value_bits()[26] == bit_u64(y, 26u64));
        assert(a.value_bits()[27] == bit_u64(x, 27u64) && b.value_bits()[27] == bit_u64(y, 27u64));
        assert(a.value_bits()[28] == bit_u64(x, 28u64) && b.value_bits()[28] == bit_u64(y, 28u64));
        assert(a.value_bits()[29] == bit_u64(x, 29u64) && b.value_bits()[29] == bit_u64(y, 29u64));
        assert(a.value_bits()[30] == bit_u64(x, 30u64) && b.value_bits()[30] == bit_u64(y, 30u64));
        assert(a.value_bits()[31] == bit_u64(x, 31u64) && b.value_bits()[31] == bit_u64(y, 31u64));
        assert(a.value_bits()[32] == bit_u64(x, 32u64) && b.value_bits()[32] == bit_u64(y, 32u64));
        assert(a.value_bits()[33] == bit_u64(x, 33u64) && b.value_bits()[33] == bit_u64(y, 33u64));
        assert(a.value_bits()[34] == bit_u64(x, 34u64) && b.value_bits()[34] == bit_u64(y, 34u64));
        assert(a.value_bits()[35] == bit_u64(x, 35u64) && b.value_bits()[35] == bit_u64(y, 35u64));
        assert(a.value_bits()[36] == bit_u64(x, 36u64) && b.value_bits()[36] == bit_u64(y, 36u64));
        assert(a.value_bits()[37] == bit_u64(x, 37u64) && b.value_bits()[37] == bit_u64(y, 37u64));
        assert(a.value_bits()[38] == bit_u64(x, 38u64) && b.value_bits()[38] == bit_u64(y, 38u64));
        assert(a.value_bits()[39] == bit_u64(x, 39u64) && b.value_bits()[39] == bit_u64(y, 39u64));
        assert(a.value_bits()[40] == bit_u64(x, 40u64) && b.value_bits()[40] == bit_u64(y, 40u64));
        assert(a.value_bits()[41] == bit_u64(x, 41u64) && b.value_bits()[41] == bit_u64(y, 41u64));
        assert(a.value_bits()[42] == bit_u64(x, 42u64) && b.value_bits()[42] == bit_u64(y, 42u64));
        assert(a.value_bits()[43] == bit_u64(x, 43u64) && b.value_bits()[43] == bit_u64(y, 43u64));
        assert(a.value_bits()[44] == bit_u64(x, 44u64) && b.value_bits()[44] == bit_u64(y, 44u64));
        assert(a.value_bits()[45] == bit_u64(x, 45u64) && b.value_bits()[45] == bit_u64(y, 45u64));
        assert(a.value_bits()[46] == bit_u64(x, 46u64) && b.value_bits()[46] == bit_u64(y, 46u64));
        assert(a.value_bits()[47] == bit_u64(x, 47u64) && b.value_bits()[47] == bit_u64(y, 47u64));
        assert(a.value_bits()[48] == bit_u64(x, 48u64) && b.value_bits()[48] == bit_u64(y, 48u64));
        assert(a.value_bits()[49] == bit_u64(x, 49u64) && b.value_bits()[49] == bit_u64(y, 49u64));
        assert(a.value_bits()[50] == bit_u64(x, 50u64) && b.value_bits()[50] == bit_u64(y, 50u64));
        assert(a.value_bits()[51] == bit_u64(x, 51u64) && b.value_bits()[51] == bit_u64(y, 51u64));
        assert(a.value_bits()[52] == bit_u64(x, 52u64) && b.value_bits()[52] == bit_u64(y, 52u64));
        assert(a.value_bits()[53] == bit_u64(x, 53u64) && b.value_bits()[53] == bit_u64(y, 53u64));
        assert(a.value_bits()[54] == bit_u64(x, 54u64) && b.value_bits()[54] == bit_u64(y, 54u64));
        assert(a.value_bits()[55] == bit_u64(x, 55u64) && b.value_bits()[55] == bit_u64(y, 55u64));
        assert(a.value_bits()[56] == bit_u64(x, 56u64) && b.value_bits()[56] == bit_u64(y, 56u64));
        assert(a.value_bits()[57] == bit_u64(x, 57u64) && b.value_bits()[57] == bit_u64(y, 57u64));
        assert(a.value_bits()[58] == bit_u64(x, 58u64) && b.value_bits()[58] == bit_u64(y, 58u64));
        assert(a.value_bits()[59] == bit_u64(x, 59u64) && b.value_bits()[59] == bit_u64(y, 59u64));
        assert(a.value_bits()[60] == bit_u64(x, 60u64) && b.value_bits()[60] == bit_u64(y, 60u64));
        assert(a.value_bits()[61] == bit_u64(x, 61u64) && b.value_bits()[61] == bit_u64(y, 61u64));
        assert(a.value_bits()[62] == bit_u64(x, 62u64) && b.value_bits()[62] == bit_u64(y, 62u64));
        assert(a.value_bits()[63] == bit_u64(x, 63u64) && b.value_bits()[63] == bit_u64(y, 63u64));
        lemma_bits_ext_u64(x, y);
        lemma_cast_u64(a.secret as u64, a.secret);
        lemma_cast_u64(b.secret as u64, b.secret);
    }
}

/// Bit `i` of `x`.
pub open spec fn bit_u128(x: u128, i: u128) -> bool {
    (x >> i) & 1u128 == 1u128
}

/// Setting bit `i` of `acc` sets that bit alone.
proof fn lemma_set_bit_u128(acc: u128, i: u128)
    by (bit_vector)
    requires
        i < 128,
    ensures
        forall|j: u128| j < 128 ==> #[trigger] bit_u128(acc | (1u128 << i), j) == (bit_u128(acc, j) || j == i),
{
}

/// Values with the same bits are equal.
proof fn lemma_bits_ext_u128(a: u128, b: u128)
    by (bit_vector)
    requires
        bit_u128(a, 0u128) == bit_u128(b, 0u128),
        bit_u128(a, 1u128) == bit_u128(b, 1u128),
        bit_u128(a, 2u128) == bit_u128(b, 2u128),
        bit_u128(a, 3u128) == bit_u128(b, 3u128),
        bit_u128(a, 4u128) == bit_u128(b, 4u128),
        bit_u128(a, 5u128) == bit_u128(b, 5u128),
        bit_u128(a, 6u128) == bit_u128(b, 6u128),
        bit_u128(a, 7u128) == bit_u128(b, 7u128),
        bit_u128(a, 8u128) == bit_u128(b, 8u128),
        bit_u128(a, 9u128) == bit_u128(b, 9u128),
        bit_u128(a, 10u128) == bit_u128(b, 10u128),
        bit_u128(a, 11u128) == bit_u128(b, 11u128),
        bit_u128(a, 12u128) == bit_u128(b, 12u128),
        bit_u128(a, 13u128) == bit_u128(b, 13u128),
        bit_u128(a, 14u128) == bit_u128(b, 14u128),
        bit_u128(a, 15u128) == bit_u128(b, 15u128),
        bit_u128(a, 16u128) == bit_u128(b, 16u128),
        bit_u128(a, 17u128) == bit_u128(b, 17u128),
        bit_u128(a, 18u128) == bit_u128(b, 18u128),
        bit_u128(a, 19u128) == bit_u128(b, 19u128),
        bit_u128(a, 20u128) == bit_u128(b, 20u128),
        bit_u128(a, 21u128) == bit_u128(b, 21u128),
        bit_u128(a, 22u128) == bit_u128(b, 22u128),
        bit_u128(a, 23u128) == bit_u128(b, 23u128),
        bit_u128(a, 24u128) == bit_u128(b, 24u128),
        bit_u128(a, 25u128) == bit_u128(b, 25u128),
        bit_u128(a, 26u128) == bit_u128(b, 26u128),
        bit_u128(a, 27u128) == bit_u128(b, 27u128),
        bit_u128(a, 28u128) == bit_u128(b, 28u128),
        bit_u128(a, 29u128) == bit_u128(b, 29u128),
        bit_u128(a, 30u128) == bit_u128(b, 30u128),
        bit_u128(a, 31u128) == bit_u128(b, 31u128),
        bit_u128(a, 32u128) == bit_u128(b, 32u128),
        bit_u128(a, 33u128) == bit_u128(b, 33u128),
        bit_u128(a, 34u128) == bit_u128(b, 34u128),
        bit_u128(a, 35u128) == bit_u128(b, 35u128),
        bit_u128(a, 36u128) == bit_u128(b, 36u128),
        bit_u128(a, 37u128) == bit_u128(b, 37u128),
        bit_u128(a, 38u128) == bit_u128(b, 38u128),
        bit_u128(a, 39u128) == bit_u128(b, 39u128),
        bit_u128(a, 40u128) == bit_u128(b, 40u128),
        bit_u128(a, 41u128) == bit_u128(b, 41u128),
        bit_u128(a, 42u128) == bit_u128(b, 42u128),
        bit_u128(a, 43u128) == bit_u128(b, 43u128),
        bit_u128(a, 44u128) == bit_u128(b, 44u128),
        bit_u128(a, 45u128) == bit_u128(b, 45u128),
        bit_u128(a, 46u128) == bit_u128(b, 46u128),
        bit_u128(a, 47u128) == bit_u128(b, 47u128),
        bit_u128(a, 48u128) == bit_u128(b, 48u128),
        bit_u128(a, 49u128) == bit_u128(b, 49u128),
        bit_u128(a, 50u128) == bit_u128(b, 50u128),
        bit_u128(a, 51u128) == bit_u128(b, 51u128),
        bit_u128(a, 52u128) == bit_u128(b, 52u128),
        bit_u128(a, 53u128) == bit_u128(b, 53u128),
        bit_u128(a, 54u128) == bit_u128(b, 54u128),
        bit_u128(a, 55u128) == bit_u128(b, 55u128),
        bit_u128(a, 56u128) == bit_u128(b, 56u128),
        bit_u128(a, 57u128) == bit_u128(b, 57u128),
        bit_u128(a, 58u128) == bit_u128(b, 58u128),
        bit_u128(a, 59u128) == bit_u128(b, 59u128),
        bit_u128(a, 60u128) == bit_u128(b, 60u128),
        bit_u128(a, 61u128) == bit_u128(b, 61u128),
        bit_u128(a, 62u128) == bit_u128(b, 62u128),
        bit_u128(a, 63u128) == bit_u128(b, 63u128),
        bit_u128(a, 64u128) == bit_u128(b, 64u128),
        bit_u128(a, 65u128) == bit_u128(b, 65u128),
        bit_u128(a, 66u128) == bit_u128(b, 66u128),
        bit_u128(a, 67u128) == bit_u128(b, 67u128),
        bit_u128(a, 68u128) == bit_u128(b, 68u128),
        bit_u128(a, 69u128) == bit_u128(b, 69u128),
        bit_u128(a, 70u128) == bit_u128(b, 70u128),
        bit_u128(a, 71u128) == bit_u128(b, 71u128),
        bit_u128(a, 72u128) == bit_u128(b, 72u128),
        bit_u128(a, 73u128) == bit_u128(b, 73u128),
        bit_u128(a, 74u128) == bit_u128(b, 74u128),
        bit_u128(a, 75u128) == bit_u128(b, 75u128),
        bit_u128(a, 76u128) == bit_u128(b, 76u128),
        bit_u128(a, 77u128) == bit_u128(b, 77u128),
        bit_u128(a, 78u128) == bit_u128(b, 78u128),
        bit_u128(a, 79u128) == bit_u128(b, 79u128),
        bit_u128(a, 80u128) == bit_u128(b, 80u128),
        bit_u128(a, 81u128) == bit_u128(b, 81u128),
        bit_u128(a, 82u128) == bit_u128(b, 82u128),
        bit_u128(a, 83u128) == bit_u128(b, 83u128),
        bit_u128(a, 84u128) == bit_u128(b, 84u128),
        bit_u128(a, 85u128) == bit_u128(b, 85u128),
        bit_u128(a, 86u128) == bit_u128(b, 86u128),
        bit_u128(a, 87u128) == bit_u128(b, 87u128),
        bit_u128(a, 88u128) == bit_u128(b, 88u128),
        bit_u128(a, 89u128) == bit_u128(b, 89u128),
        bit_u128(a, 90u128) == bit_u128(b, 90u128),
        bit_u128(a, 91u128) == bit_u128(b, 91u128),
        bit_u128(a, 92u128) == bit_u128(b, 92u128),
        bit_u128(a, 93u128) == bit_u128(b, 93u128),
        bit_u128(a, 94u128) == bit_u128(b, 94u128),
        bit_u128(a, 95u128) == bit_u128(b, 95u128),
        bit_u128(a, 96u128) == bit_u128(b, 96u128),
        bit_u128(a, 97u128) == bit_u128(b, 97u128),
        bit_u128(a, 98u128) == bit_u128(b, 98u128),
        bit_u128(a, 99u128) == bit_u128(b, 99u128),
        bit_u128(a, 100u128) == bit_u128(b, 100u128),
        bit_u128(a, 101u128) == bit_u128(b, 101u128),
        bit_u128(a, 102u128) == bit_u128(b, 102u128),
        bit_u128(a, 103u128) == bit_u128(b, 103u128),
        bit_u128(a, 104u128) == bit_u128(b, 104u128),
        bit_u128(a, 105u128) == bit_u128(b, 105u128),
        bit_u128(a, 106u128) == bit_u128(b, 106u128),
        bit_u128(a, 107u128) == bit_u128(b, 107u128),
        bit_u128(a, 108u128) == bit_u128(b, 108u128),
        bit_u128(a, 109u128) == bit_u128(b, 109u128),
        bit_u128(a, 110u128) == bit_u128(b, 110u128),
        bit_u128(a, 111u128) == bit_u128(b, 111u128),
        bit_u128(a, 112u128) == bit_u128(b, 112u128),
        bit_u128(a, 113u128) == bit_u128(b, 113u128),
        bit_u128(a, 114u128) == bit_u128(b, 114u128),
        bit_u128(a, 115u128) == bit_u128(b, 115u128),
        bit_u128(a, 116u128) == bit_u128(b, 116u128),
        bit_u128(a, 117u128) == bit_u128(b, 117u128),
        bit_u128(a, 118u128) == bit_u128(b, 118u128),
        bit_u128(a, 119u128) == bit_u128(b, 119u128),
        bit_u128(a, 120u128) == bit_u128(b, 120u128),
        bit_u128(a, 121u128) == bit_u128(b, 121u128),
        bit_u128(a, 122u128) == bit_u128(b, 122u128),
        bit_u128(a, 123u128) == bit_u128(b, 123u128),
        bit_u128(a, 124u128) == bit_u128(b, 124u128),
        bit_u128(a, 125u128) == bit_u128(b, 125u128),
        bit_u128(a, 126u128) == bit_u128(b, 126u128),
        bit_u128(a, 127u128) == bit_u128(b, 127u128),
    ensures
        a == b,
{
}

/// The reinterpretations between signed and unsigned undo each other.
proof fn lemma_cast_u128(x: u128, y: i128)
    by (bit_vector)
    ensures
        ((x as i128) as u128) == x,
        ((y as u128) as i128) == y,
{
}

impl FromToBits for Sbi<i128> {
    type BitsType = [Sbi1; 128];

    closed spec fn value_bits(self) -> Seq<bool> {
        Seq::new(128, |i: int| bit_u128(self.secret as u128, i as u128))
    }

    open spec fn bits_seq(bits: [Sbi1; 128]) -> Seq<bool> {
        bits@
    }

    fn to_le_bits(self) -> (res: [Sbi1; 128]) {
        let x = self.secret as u128;
        let mut bits: [Sbi1; 128] = [false; 128];
        let mut i: usize = 0;
        while i < 128
            invariant
                i <= 128,
                x == self.secret as u128,
                bits@.len() == 128,
                forall|j: int| 0 <= j < i ==> bits@[j] == bit_u128(x, j as u128),
            decreases 128 - i,
        {
            bits[i] = (x >> (i as u128)) & 1 == 1;
            i = i + 1;
        }
        assert(bits@ =~= self.value_bits());
        bits
    }

    fn from_le_bits(bits: [Sbi1; 128]) -> (res: Self) {
        let mut acc: u128 = 0;
        proof {
            assert forall|j: u128| j < 128 implies !bit_u128(0, j) by {
                assert(!bit_u128(0, j)) by (bit_vector);
            }
        }
        let mut i: usize = 0;
        while i < 128
            invariant
                i <= 128,
                bits@.len() == 128,
                forall|j: u128| j < i ==> bit_u128(acc, j) == bits@[j as int],
                forall|j: u128| i <= j < 128 ==> !bit_u128(acc, j),
            decreases 128 - i,
        {
            if bits[i] {
                proof {
                    lemma_set_bit_u128(acc, i as u128);
                }
                acc = acc | (1 << (i as u128));
            }
            i = i + 1;
        }
        proof {
            lemma_cast_u128(acc, 0);
        }
        let res = Sbi { secret: acc as i128 };
        assert(res.value_bits() =~= bits@);
        res
    }

    #[verifier::rlimit(80)]
    proof fn lemma_bits_determine(a: Self, b: Self) {
        let x = a.secret as u128;
        let y = b.secret as u128;
        assert(a.value_bits()[0] == bit_u128(x, 0u128) && b.value_bits()[0] == bit_u128(y, 0u128));
        assert(a.value_bits()[1] == bit_u128(x, 1u128) && b.value_bits()[1] == bit_u128(y, 1u128));
        assert(a.value_bits()[2] == bit_u128(x, 2u128) && b.value_bits()[2] == bit_u128(y, 2u128));
        assert(a.value_bits()[3] == bit_u128(x, 3u128) && b.value_bits()[3] == bit_u128(y, 3u128));
        assert(a.value_bits()[4] == bit_u128(x, 4u128) && b.value_bits()[4] == bit_u128(y, 4u128));
        assert(a.value_bits()[5] == bit_u128(x, 5u128) && b.value_bits()[5] == bit_u128(y, 5u128));
        assert(a.value_bits()[6] == bit_u128(x, 6u128) && b.value_bits()[6] == bit_u128(y, 6u128));
        assert(a.value_bits()[7] == bit_u128(x, 7u128) && b.value_bits()[7] == bit_u128(y, 7u128));
        assert(a.value_bits()[8] == bit_u128(x, 8u128) && b.value_bits()[8] == bit_u128(y, 8u128));
        assert(a.value_bits()[9] == bit_u128(x, 9u128) && b.value_bits()[9] == bit_u128(y, 9u128));
        assert(a.value_bits()[10] == bit_u128(x, 10u128) && b.value_bits()[10] == bit_u128(y, 10u128));
        assert(a.value_bits()[11] == bit_u128(x, 11u128) && b.value_bits()[11] == bit_u128(y, 11u128));
        assert(a.value_bits()[12] == bit_u128(x, 12u128) && b.value_bits()[12] == bit_u128(y, 12u128));
        assert(a.value_bits()[13] == bit_u128(x, 13u128) && b.value_bits()[13] == bit_u128(y, 13u128));
        assert(a.value_bits()[14] == bit_u128(x, 14u128) && b.value_bits()[14] == bit_u128(y, 14u128));
        assert(a.value_bits()[15] == bit_u128(x, 15u128) && b.value_bits()[15] == bit_u128(y, 15u128));
        assert(a.value_bits()[16] == bit_u128(x, 16u128) && b.value_bits()[16] == bit_u128(y, 16u128));
        assert(a.value_bits()[17] == bit_u128(x, 17u128) && b.value_bits()[17] == bit_u128(y, 17u128));
        assert(a.value_bits()[18] == bit_u128(x, 18u128) && b.value_bits()[18] == bit_u128(y, 18u128));
        assert(a.value_bits()[19] == bit_u128(x, 19u128) && b.value_bits()[19] == bit_u128(y, 19u128));
        assert(a.value_bits()[20] == bit_u128(x, 20u128) && b.value_bits()[20] == bit_u128(y, 20u128));
        assert(a.value_bits()[21] == bit_u128(x, 21u128) && b.value_bits()[21] == bit_u128(y, 21u128));
        assert(a.value_bits()[22] == bit_u128(x, 22u128) && b.value_bits()[22] == bit_u128(y, 22u128));
        assert(a.value_bits()[23] == bit_u128(x, 23u128) && b.value_bits()[23] == bit_u128(y, 23u128));
        assert(a.value_bits()[24] == bit_u128(x, 24u128) && b.value_bits()[24] == bit_u128(y, 24u128));
        assert(a.value_bits()[25] == bit_u128(x, 25u128) && b.value_bits()[25] == bit_u128(y, 25u128));
        assert(a.value_bits()[26] == bit_u128(x, 26u128) && b.value_bits()[26] == bit_u128(y, 26u128));
        assert(a.value_bits()[27] == bit_u128(x, 27u128) && b.value_bits()[27] == bit_u128(y, 27u128));
        assert(a.value_bits()[28] == bit_u128(x, 28u128) && b.value_bits()[28] == bit_u128(y, 28u128));
        assert(a.value_bits()[29] == bit_u128(x, 29u128) && b.value_bits()[29] == bit_u128(y, 29u128));
        assert(a.value_bits()[30] == bit_u128(x, 30u128) && b.value_bits()[30] == bit_u128(y, 30u128));
        assert(a.value_bits()[31] == bit_u128(x, 31u128) && b.value_bits()[31] == bit_u128(y, 31u128));
        assert(a.value_bits()[32] == bit_u128(x, 32u128) && b.value_bits()[32] == bit_u128(y, 32u128));
        assert(a.value_bits()[33] == bit_u128(x, 33u128) && b.value_bits()[33] == bit_u128(y, 33u128));
        assert(a.value_bits()[34] == bit_u128(x, 34u128) && b.value_bits()[34] == bit_u128(y, 34u128));
        assert(a.value_bits()[35] == bit_u128(x, 35u128) && b.value_bits()[35] == bit_u128(y, 35u128));
        assert(a.value_bits()[36] == bit_u128(x, 36u128) && b.value_bits()[36] == bit_u128(y, 36u128));
        assert(a.value_bits()[37] == bit_u128(x, 37u128) && b.value_bits()[37] == bit_u128(y, 37u128));
        assert(a.value_bits()[38] == bit_u128(x, 38u128) && b.value_bits()[38] == bit_u128(y, 38u128));
        assert(a.value_bits()[39] == bit_u128(x, 39u128) && b.value_bits()[39] == bit_u128(y, 39u128));
        assert(a.value_bits()[40] == bit_u128(x, 40u128) && b.value_bits()[40] == bit_u128(y, 40u128));
        assert(a.value_bits()[41] == bit_u128(x, 41u128) && b.value_bits()[41] == bit_u128(y, 41u128));
        assert(a.value_bits()[42] == bit_u128(x, 42u128) && b.value_bits()[42] == bit_u128(y, 42u128));
        assert(a.value_bits()[43] == bit_u128(x, 43u128) && b.value_bits()[43] == bit_u128(y, 43u128));
        assert(a.value_bits()[44] == bit_u128(x, 44u128) && b.value_bits()[44] == bit_u128(y, 44u128));
        assert(a.value_bits()[45] == bit_u128(x, 45u128) && b.value_bits()[45] == bit_u128(y, 45u128));
        assert(a.value_bits()[46] == bit_u128(x, 46u128) && b.value_bits()[46] == bit_u128(y, 46u128));
        assert(a.value_bits()[47] == bit_u128(x, 47u128) && b.value_bits()[47] == bit_u128(y, 47u128));
        assert(a.value_bits()[48] == bit_u128(x, 48u128) && b.value_bits()[48] == bit_u128(y, 48u128));
        assert(a.value_bits()[49] == bit_u128(x, 49u128) && b.value_bits()[49] == bit_u128(y, 49u128));
        assert(a.value_bits()[50] == bit_u128(x, 50u128) && b.value_bits()[50] == bit_u128(y, 50u128));
        assert(a.value_bits()[51] == bit_u128(x, 51u128) && b.value_bits()[51] == bit_u128(y, 51u128));
        assert(a.value_bits()[52] == bit_u128(x, 52u128) && b.value_bits()[52] == bit_u128(y, 52u128));
        assert(a.value_bits()[53] == bit_u128(x, 53u128) && b.value_bits()[53] == bit_u128(y, 53u128));
        assert(a.value_bits()[54] == bit_u128(x, 54u128) && b.value_bits()[54] == bit_u128(y, 54u128));
        assert(a.value_bits()[55] == bit_u128(x, 55u128) && b.value_bits()[55] == bit_u128(y, 55u128));
        assert(a.value_bits()[56] == bit_u128(x, 56u128) && b.value_bits()[56] == bit_u128(y, 56u128));
        assert(a.value_bits()[57] == bit_u128(x, 57u128) && b.value_bits()[57] == bit_u128(y, 57u128));
        assert(a.value_bits()[58] == bit_u128(x, 58u128) && b.value_bits()[58] == bit_u128(y, 58u128));
        assert(a.value_bits()[59] == bit_u128(x, 59u128) && b.value_bits()[59] == bit_u128(y, 59u128));
        assert(a.value_bits()[60] == bit_u128(x, 60u128) && b.value_bits()[60] == bit_u128(y, 60u128));
        assert(a.value_bits()[61] == bit_u128(x, 61u128) && b.value_bits()[61] == bit_u128(y, 61u128));
        assert(a.value_bits()[62] == bit_u128(x, 62u128) && b.value_bits()[62] == bit_u128(y, 62u128));
        assert(a.value_bits()[63] == bit_u128(x, 63u128) && b.value_bits()[63] == bit_u128(y, 63u128));
        assert(a.value_bits()[64] == bit_u128(x, 64u128) && b.value_bits()[64] == bit_u128(y, 64u128));
        assert(a.value_bits()[65] == bit_u128(x, 65u128) && b.value_bits()[65] == bit_u128(y, 65u128));
        assert(a.value_bits()[66] == bit_u128(x, 66u128) && b.value_bits()[66] == bit_u128(y, 66u128));
        assert(a.value_bits()[67] == bit_u128(x, 67u128) && b.value_bits()[67] == bit_u128(y, 67u128));
        assert(a.value_bits()[68] == bit_u128(x, 68u128) && b.value_bits()[68] == bit_u128(y, 68u128));
        assert(a.value_bits()[69] == bit_u128(x, 69u128) && b.value_bits()[69] == bit_u128(y, 69u128));
        assert(a.value_bits()[70] == bit_u128(x, 70u128) && b.value_bits()[70] == bit_u128(y, 70u128));
        assert(a.value_bits()[71] == bit_u128(x, 71u128) && b.value_bits()[71] == bit_u128(y, 71u128));
        assert(a.value_bits()[72] == bit_u128(x, 72u128) && b.value_bits()[72] == bit_u128(y, 72u128));
        assert(a.value_bits()[73] == bit_u128(x, 73u128) && b.value_bits()[73] == bit_u128(y, 73u128));
        assert(a.value_bits()[74] == bit_u128(x, 74u128) && b.value_bits()[74] == bit_u128(y, 74u128));
        assert(a.value_bits()[75] == bit_u128(x, 75u128) && b.value_bits()[75] == bit_u128(y, 75u128));
        assert(a.value_bits()[76] == bit_u128(x, 76u128) && b.value_bits()[76] == bit_u128(y, 76u128));
        assert(a.value_bits()[77] == bit_u128(x, 77u128) && b.value_bits()[77] == bit_u128(y, 77u128));
        assert(a.value_bits()[78] == bit_u128(x, 78u128) && b.value_bits()[78] == bit_u128(y, 78u128));
        assert(a.value_bits()[79] == bit_u128(x, 79u128) && b.value_bits()[79] == bit_u128(y, 79u128));
        assert(a.value_bits()[80] == bit_u128(x, 80u128) && b.value_bits()[80] == bit_u128(y, 80u128));
        assert(a.value_bits()[81] == bit_u128(x, 81u128) && b.value_bits()[81] == bit_u128(y, 81u128));
        assert(a.value_bits()[82] == bit_u128(x, 82u128) && b.value_bits()[82] == bit_u128(y, 82u128));
        assert(a.value_bits()[83] == bit_u128(x, 83u128) && b.value_bits()[83] == bit_u128(y, 83u128));
        assert(a.value_bits()[84] == bit_u128(x, 84u128) && b.value_bits()[84] == bit_u128(y, 84u128));
        assert(a.value_bits()[85] == bit_u128(x, 85u128) && b.value_bits()[85] == bit_u128(y, 85u128));
        assert(a.value_bits()[86] == bit_u128(x, 86u128) && b.value_bits()[86] == bit_u128(y, 86u128));
        assert(a.value_bits()[87] == bit_u128(x, 87u128) && b.value_bits()[87] == bit_u128(y, 87u128));
        assert(a.value_bits()[88] == bit_u128(x, 88u128) && b.value_bits()[88] == bit_u128(y, 88u128));
        assert(a.value_bits()[89] == bit_u128(x, 89u128) && b.value_bits()[89] == bit_u128(y, 89u128));
        assert(a.value_bits()[90] == bit_u128(x, 90u128) && b.value_bits()[90] == bit_u128(y, 90u128));
        assert(a.value_bits()[91] == bit_u128(x, 91u128) && b.value_bits()[91] == bit_u128(y, 91u128));
        assert(a.value_bits()[92] == bit_u128(x, 92u128) && b.value_bits()[92] == bit_u128(y, 92u128));
        assert(a.value_bits()[93] == bit_u128(x, 93u128) && b.value_bits()[93] == bit_u128(y, 93u128));
        assert(a.value_bits()[94] == bit_u128(x, 94u128) && b.value_bits()[94] == bit_u128(y, 94u128));
        assert(a.value_bits()[95] == bit_u128(x, 95u128) && b.value_bits()[95] == bit_u128(y, 95u128));
        assert(a.value_bits()[96] == bit_u128(x, 96u128) && b.value_bits()[96] == bit_u128(y, 96u128));
        assert(a.value_bits()[97] == bit_u128(x, 97u128) && b.value_bits()[97] == bit_u128(y, 97u128));
        assert(a.value_bits()[98] == bit_u128(x, 98u128) && b.value_bits()[98] == bit_u128(y, 98u128));
        assert(a.value_bits()[99] == bit_u128(x, 99u128) && b.value_bits()[99] == bit_u128(y, 99u128));
        assert(a.value_bits()[100] == bit_u128(x, 100u128) && b.value_bits()[100] == bit_u128(y, 100u128));
        assert(a.value_bits()[101] == bit_u128(x, 101u128) && b.value_bits()[101] == bit_u128(y, 101u128));
        assert(a.value_bits()[102] == bit_u128(x, 102u128) && b.value_bits()[102] == bit_u128(y, 102u128));
        assert(a.value_bits()[103] == bit_u128(x, 103u128) && b.value_bits()[103] == bit_u128(y, 103u128));
        assert(a.value_bits()[104] == bit_u128(x, 104u128) && b.value_bits()[104] == bit_u128(y, 104u128));
        assert(a.value_bits()[105] == bit_u128(x, 105u128) && b.value_bits()[105] == bit_u128(y, 105u128));
        assert(a.value_bits()[106] == bit_u128(x, 106u128) && b.value_bits()[106] == bit_u128(y, 106u128));
        assert(a.value_bits()[107] == bit_u128(x, 107u128) && b.value_bits()[107] == bit_u128(y, 107u128));
        assert(a.value_bits()[108] == bit_u128(x, 108u128) && b.value_bits()[108] == bit_u128(y, 108u128));
        assert(a.value_bits()[109] == bit_u128(x, 109u128) && b.value_bits()[109] == bit_u128(y, 109u128));
        assert(a.value_bits()[110] == bit_u128(x, 110u128) && b.value_bits()[110] == bit_u128(y, 110u128));
        assert(a.value_bits()[111] == bit_u128(x, 111u128) && b.value_bits()[111] == bit_u128(y, 111u128));
        assert(a.value_bits()[112] == bit_u128(x, 112u128) && b.value_bits()[112] == bit_u128(y, 112u128));
        assert(a.value_bits()[113] == bit_u128(x, 113u128) && b.value_bits()[113] == bit_u128(y, 113u128));
        assert(a.value_bits()[114] == bit_u128(x, 114u128) && b.value_bits()[114] == bit_u128(y, 114u128));
        assert(a.value_bits()[115] == bit_u128(x, 115u128) && b.value_bits()[115] == bit_u128(y, 115u128));
        assert(a.value_bits()[116] == bit_u128(x, 116u128) && b.value_bits()[116] == bit_u128(y, 116u128));
        assert(a.value_bits()[117] == bit_u128(x, 117u128) && b.value_bits()[117] == bit_u128(y, 117u128));
        assert(a.value_bits()[118] == bit_u128(x, 118u128) && b.value_bits()[118] == bit_u128(y, 118u128));
        assert(a.value_bits()[119] == bit_u128(x, 119u128) && b.value_bits()[119] == bit_u128(y, 119u128));
        assert(a.value_bits()[120] == bit_u128(x, 120u128) && b.value_bits()[120] == bit_u128(y, 120u128));
        assert(a.value_bits()[121] == bit_u128(x, 121u128) && b.value_bits()[121] == bit_u128(y, 121u128));
        assert(a.value_bits()[122] == bit_u128(x, 122u128) && b.value_bits()[122] == bit_u128(y, 122u128));
        assert(a.value_bits()[123] == bit_u128(x, 123u128) && b.value_bits()[123] == bit_u128(y, 123u128));
        assert(a.value_bits()[124] == bit_u128(x, 124u128) && b.value_bits()[124] == bit_u128(y, 124u128));
        assert(a.value_bits()[125] == bit_u128(x, 125u128) && b.value_bits()[125] == bit_u128(y, 125u128));
        assert(a.value_bits()[126] == bit_u128(x, 126u128) && b.value_bits()[126] == bit_u128(y, 126u128));
        assert(a.value_bits()[127] == bit_u128(x, 127u128) && b.value_bits()[127] == bit_u128(y, 127u128));
        lemma_bits_ext_u128(x, y);
        lemma_cast_u128(a.secret as u128, a.secret);
        lemma_cast_u128(b.secret as u128, b.secret);
    }
}

impl StateCanonical for Sbi<i8> {
    open spec fn view_state_bytes(v: i8) -> Seq<u8> {
        v.state_bytes()
    }

    proof fn lemma_bytes_follow_view(&self) {
    }

    proof fn lemma_read_bytes_are_canonical(data: Seq<u8>) {
        <i8 as StateCanonical>::lemma_read_bytes_are_canonical(data);
    }
}

impl StateCanonical for Sbi<i16> {
    open spec fn view_state_bytes(v: i16) -> Seq<u8> {
        v.state_bytes()
    }

    proof fn lemma_bytes_follow_view(&self) {
    }

    proof fn lemma_read_bytes_are_canonical(data: Seq<u8>) {
        <i16 as StateCanonical>::lemma_read_bytes_are_canonical(data);
    }
}

impl StateCanonical for Sbi<i32> {
    open spec fn view_state_bytes(v: i32) -> Seq<u8> {
        v.state_bytes()
    }

    proof fn lemma_bytes_follow_view(&self) {
    }

    proof fn lemma_read_bytes_are_canonical(data: Seq<u8>) {
        <i32 as StateCanonical>::lemma_read_bytes_are_canonical(data);
    }
}

impl StateCanonical for Sbi<i64> {
    open spec fn view_state_bytes(v: i64) -> Seq<u8> {
        v.state_bytes()
    }

    proof fn lemma_bytes_follow_view(&self) {
    }

    proof fn lemma_read_bytes_are_canonical(data: Seq<u8>) {
        <i64 as StateCanonical>::lemma_read_bytes_are_canonical(data);
    }
}

impl StateCanonical for Sbi<i128> {
    open spec fn view_state_bytes(v: i128) -> Seq<u8> {
        v.state_bytes()
    }

    proof fn lemma_bytes_follow_view(&self) {
    }

    proof fn lemma_read_bytes_are_canonical(data: Seq<u8>) {
        <i128 as StateCanonical>::lemma_read_bytes_are_canonical(data);
    }
}

/// The bits of a secret `i8` are its two's-complement bits, least
/// significant first: bit `i` is bit `i` of the value, so there are 8 of them.
pub proof fn law_sbi_i8_bits_least_significant_first(x: Sbi<i8>, i: int)
    requires
        0 <= i < 8,
    ensures
        x.value_bits().len() == 8,
        x.value_bits()[i] == ((((x@ as u8) >> (i as u8)) & 1u8) == 1u8),
{
}

/// A secret `i8` takes as many bits as its value has: 8, 8 for each byte it
/// is written as, one for each of its bits; it is written as its value.
pub proof fn law_sbi_i8_bit_size(x: Sbi<i8>)
    ensures
        <Sbi<i8> as SecretBinaryFixedSize>::spec_bits() == 8,
        <Sbi<i8> as SecretBinaryFixedSize>::spec_bits() == 8 * x.state_bytes().len(),
        <Sbi<i8> as SecretBinaryFixedSize>::spec_bits() == x.value_bits().len(),
        <i8 as SecretBinaryFixedSize>::spec_bits() == 8 * x@.state_bytes().len(),
        x.state_bytes() == x@.state_bytes(),
{
    crate::traits::lemma_le_bytes_len((x@ as u8) as nat, 1);
}

/// The bits of a secret `i16` are its two's-complement bits, least
/// significant first: bit `i` is bit `i` of the value, so there are 16 of them.
pub proof fn law_sbi_i16_bits_least_significant_first(x: Sbi<i16>, i: int)
    requires
        0 <= i < 16,
    ensures
        x.value_bits().len() == 16,
        x.value_bits()[i] == ((((x@ as u16) >> (i as u16)) & 1u16) == 1u16),
{
}

/// A secret `i16` takes as many bits as its value has: 16, 8 for each byte it
/// is written as, one for each of its bits; it is written as its value.
pub proof fn law_sbi_i16_bit_size(x: Sbi<i16>)
    ensures
        <Sbi<i16> as SecretBinaryFixedSize>::spec_bits() == 16,
        <Sbi<i16> as SecretBinaryFixedSize>::spec_bits() == 8 * x.state_bytes().len(),
        <Sbi<i16> as SecretBinaryFixedSize>::spec_bits() == x.value_bits().len(),
        <i16 as SecretBinaryFixedSize>::spec_bits() == 8 * x@.state_bytes().len(),
        x.state_bytes() == x@.state_bytes(),
{
    crate::traits::lemma_le_bytes_len((x@ as u16) as nat, 2);
}

/// The bits of a secret `i32` are its two's-complement bits, least
/// significant first: bit `i` is bit `i` of the value, so there are 32 of them.
pub proof fn law_sbi_i32_bits_least_significant_first(x: Sbi<i32>, i: int)
    requires
        0 <= i < 32,
    ensures
        x.value_bits().len() == 32,
        x.value_bits()[i] == ((((x@ as u32) >> (i as u32)) & 1u32) == 1u32),
{
}

/// A secret `i32` takes as many bits as its value has: 32, 8 for each byte it
/// is written as, one for each of its bits; it is written as its value.
pub proof fn law_sbi_i32_bit_size(x: Sbi<i32>)
    ensures
        <Sbi<i32> as SecretBinaryFixedSize>::spec_bits() == 32,
        <Sbi<i32> as SecretBinaryFixedSize>::spec_bits() == 8 * x.state_bytes().len(),
        <Sbi<i32> as SecretBinaryFixedSize>::spec_bits() == x.value_bits().len(),
        <i32 as SecretBinaryFixedSize>::spec_bits() == 8 * x@.state_bytes().len(),
        x.state_bytes() == x@.state_bytes(),
{
    crate::traits::lemma_le_bytes_len((x@ as u32) as nat, 4);
}

/// The bits of a secret `i64` are its two's-complement bits, least
/// significant first: bit `i` is bit `i` of the value, so there are 64 of them.
pub proof fn law_sbi_i64_bits_least_significant_first(x: Sbi<i64>, i: int)
    requires
        0 <= i < 64,
    ensures
        x.value_bits().len() == 64,
        x.value_bits()[i] == ((((x@ as u64) >> (i as u64)) & 1u64) == 1u64),
{
}

/// A secret `i64` takes as many bits as its value has: 64, 8 for each byte it
/// is written as, one for each of its bits; it is written as its value.
pub proof fn law_sbi_i64_bit_size(x: Sbi<i64>)
    ensures
        <Sbi<i64> as SecretBinaryFixedSize>::spec_bits() == 64,
        <Sbi<i64> as SecretBinaryFixedSize>::spec_bits() == 8 * x.state_bytes().len(),
        <Sbi<i64> as SecretBinaryFixedSize>::spec_bits() == x.value_bits().len(),
        <i64 as SecretBinaryFixedSize>::spec_bits() == 8 * x@.state_bytes().len(),
        x.state_bytes() == x@.state_bytes(),
{
    crate::traits::lemma_le_bytes_len((x@ as u64) as nat, 8);
}

/// The bits of a secret `i128` are its two's-complement bits, least
/// significant first: bit `i` is bit `i` of the value, so there are 128 of them.
pub proof fn law_sbi_i128_bits_least_significant_first(x: Sbi<i128>, i: int)
    requires
        0 <= i < 128,
    ensures
        x.value_bits().len() == 128,
        x.value_bits()[i] == ((((x@ as u128) >> (i as u128)) & 1u128) == 1u128),
{
}

/// A secret `i128` takes as many bits as its value has: 128, 8 for each byte it
/// is written as, one for each of its bits; it is written as its value.
pub proof fn law_sbi_i128_bit_size(x: Sbi<i128>)
    ensures
        <Sbi<i128> as SecretBinaryFixedSize>::spec_bits() == 128,
        <Sbi<i128> as SecretBinaryFixedSize>::spec_bits() == 8 * x.state_bytes().len(),
        <Sbi<i128> as SecretBinaryFixedSize>::spec_bits() == x.value_bits().len(),
        <i128 as SecretBinaryFixedSize>::spec_bits() == 8 * x@.state_bytes().len(),
        x.state_bytes() == x@.state_bytes(),
{
    crate::traits::lemma_le_bytes_len((x@ as u128) as nat, 16);
}

/// A secret bit takes one bit.
pub proof fn law_sbi1_bit_size()
    ensures
        <bool as SecretBinaryFixedSize>::spec_bits() == 1,
{
}

} // verus!
