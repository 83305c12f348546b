//! Shortnames: the LEB128-encoded identifiers of contract functions.
use vstd::prelude::*;

use crate::leb128::{
    is_canonical_leb128, leb128_encode, leb128_value, lemma_canonical_is_encoding,
    lemma_encode_canonical, lemma_pow128_positive, lemma_value_lower_bound, lemma_value_push,
    pow128, to_leb128_bytes,
};

verus! {

/// Container for a LEB128-encoded shortname.
///
/// Instances of this type are always valid LEB128-encoded.
#[derive(Eq, PartialEq, Structural, Debug, Clone, Copy)]
pub struct Shortname {
    /// Value
    value: u32,
}

impl View for Shortname {
    type V = u32;

    closed spec fn view(&self) -> u32 {
        self.value
    }
}

/// Error text when the input holds no bytes.
pub open spec fn err_empty() -> Seq<char> {
    "Shortname must not be empty"@
}

/// Error text when the last byte carries the continuation bit.
pub open spec fn err_last_continuation() -> Seq<char> {
    "Shortname's last byte must not have continuation bit set"@
}

/// Error text when the encoding ends in a superfluous zero group.
pub open spec fn err_not_normalized() -> Seq<char> {
    "Shortname must be normalized, with no trailing zeroes"@
}

/// Error text when a non-last byte lacks the continuation bit.
pub open spec fn err_missing_continuation() -> Seq<char> {
    "Shortname's non-last bytes must have their continuation bits set"@
}

/// Error text when the value does not fit in 32 bits.
pub open spec fn err_too_large() -> Seq<char> {
    "Shortname value too large for u32"@
}

/// What parsing the bytes of a shortname yields: the value, or the text of the
/// first rule that the bytes break.
pub open spec fn shortname_parse(s: Seq<u8>) -> Result<u32, Seq<char>> {
    if s.len() == 0 {
        Err(err_empty())
    } else if s.last() >= 0x80 {
        Err(err_last_continuation())
    } else if s.last() == 0 && s.len() > 1 {
        Err(err_not_normalized())
    } else if exists|i: int| 0 <= i < s.len() - 1 && #[trigger] s[i] < 0x80 {
        Err(err_missing_continuation())
    } else if leb128_value(s) > u32::MAX {
        Err(err_too_large())
    } else {
        Ok(leb128_value(s) as u32)
    }
}

/// Shifts `lhs` left by `rhs` bits, giving `None` where the shift is at least
/// 32 or drops set bits.
fn actual_checked_shl(lhs: u32, rhs: u32) -> (res: Option<u32>)
    requires
        lhs < 128,
    ensures
        rhs >= 32 ==> res is None,
        rhs < 32 ==> (res is Some <==> ((lhs as u64) << (rhs as u64)) <= u32::MAX as u64),
        res matches Some(r) ==> r as u64 == (lhs as u64) << (rhs as u64),
{
    if rhs >= 32 {
        return None;
    }
    let shifted = lhs << rhs;
    let back = shifted >> rhs;
    assert(((back == lhs) <==> (((lhs as u64) << (rhs as u64)) <= u32::MAX as u64)) && (back
        == lhs ==> shifted as u64 == (lhs as u64) << (rhs as u64))) by (bit_vector)
        requires
            lhs < 128,
            rhs < 32,
            shifted == lhs << rhs,
            back == shifted >> rhs,
    ;
    if back == lhs {
        Some(shifted)
    } else {
        None
    }
}

/// The term that group `i` of a shortname adds, as the shift computes it.
proof fn lemma_shift_term(c: u32, i: u32)
    requires
        c < 128,
        i < 5,
    ensures
        ((c as u64) << ((i * 7) as u64)) == c * pow128(i as nat),
{
    reveal_with_fuel(pow128, 5);
    if i == 0 {
        assert(((c as u64) << ((i * 7) as u64)) == c) by (bit_vector)
            requires
                i == 0,
        ;
        assert(pow128(0) == 1);
        assert(((c as u64) << ((i * 7) as u64)) == c * pow128(i as nat));
    } else if i == 1 {
        assert(pow128(1) == 128);
        assert(((c as u64) << ((i * 7) as u64)) == c * 128) by (bit_vector)
            requires
                i == 1,
                c < 128,
        ;
        assert(((c as u64) << ((i * 7) as u64)) == c * pow128(i as nat));
    } else if i == 2 {
        assert(pow128(2) == 16384);
        assert(((c as u64) << ((i * 7) as u64)) == c * 16384) by (bit_vector)
            requires
                i == 2,
                c < 128,
        ;
        assert(((c as u64) << ((i * 7) as u64)) == c * pow128(i as nat));
    } else if i == 3 {
        assert(pow128(3) == 2097152);
        assert(((c as u64) << ((i * 7) as u64)) == c * 2097152) by (bit_vector)
            requires
                i == 3,
                c < 128,
        ;
        assert(((c as u64) << ((i * 7) as u64)) == c * pow128(i as nat));
    } else {
        assert(pow128(4) == 268435456);
        assert(((c as u64) << ((i * 7) as u64)) == c * 268435456) by (bit_vector)
            requires
                i == 4,
                c < 128,
        ;
        assert(((c as u64) << ((i * 7) as u64)) == c * pow128(i as nat));
    }
}

proof fn lemma_pow128_monotone(i: nat, j: nat)
    requires
        i <= j,
    ensures
        pow128(i) <= pow128(j),
    decreases j,
{
    if i < j {
        lemma_pow128_monotone(i, (j - 1) as nat);
        lemma_pow128_positive((j - 1) as nat);
    }
}

/// The value of a sequence is at least the value of any of its prefixes.
proof fn lemma_value_prefix_le(s: Seq<u8>, k: int)
    requires
        0 <= k <= s.len(),
    ensures
        leb128_value(s.take(k)) <= leb128_value(s),
    decreases s.len() - k,
{
    if k < s.len() {
        lemma_value_prefix_le(s, k + 1);
        assert(s.take(k + 1) == s.take(k).push(s[k]));
        lemma_value_push(s.take(k), s[k]);
    } else {
        assert(s.take(k) == s);
    }
}

impl Shortname {
    /// Create Shortname from an u32
    pub fn from_u32(value: u32) -> (res: Self)
        ensures
            res@ == value,
    {
        Self { value }
    }

    /// Create Shortname from a slice of bytes. Slice must be valid LEB128-encoded.
    pub fn from_be_bytes(bytes: &[u8]) -> (res: Result<Self, String>)
        ensures
            match res {
                Ok(s) => shortname_parse(bytes@) == Ok::<u32, Seq<char>>(s@),
                Err(e) => shortname_parse(bytes@) == Err::<u32, Seq<char>>(e@),
            },
    {
        let n = bytes.len();
        // Errors for last byte
        if n == 0 {
            return Err(String::from_str("Shortname must not be empty"));
        }
        let last = bytes[n - 1];
        if last >= 0x80 {
            return Err(String::from_str("Shortname's last byte must not have continuation bit set"));
        }
        if last == 0x00 && n > 1 {
            return Err(String::from_str("Shortname must be normalized, with no trailing zeroes"));
        }
        // Global validation
        let mut i: usize = 0;
        while i < n - 1
            invariant
                n == bytes@.len(),
                n >= 1,
                i <= n - 1,
                bytes@.last() < 0x80,
                !(bytes@.last() == 0 && n > 1),
                forall|j: int| 0 <= j < i ==> #[trigger] bytes@[j] >= 0x80,
            decreases n - 1 - i,
        {
            if bytes[i] < 0x80 {
                assert(bytes@[i as int] < 0x80);
                return Err(
                    String::from_str(
                        "Shortname's non-last bytes must have their continuation bits set",
                    ),
                );
            }
            i = i + 1;
        }
        assert(is_canonical_leb128(bytes@));
        let mut value: u32 = 0;
        let mut i: usize = 0;
        while i < n
            invariant
                n == bytes@.len(),
                is_canonical_leb128(bytes@),
                i <= n,
                i <= 5,
                value as nat == leb128_value(bytes@.take(i as int)),
                value < pow128(i as nat),
                shortname_parse(bytes@) == (if leb128_value(bytes@) > u32::MAX {
                    Err::<u32, Seq<char>>(err_too_large())
                } else {
                    Ok(leb128_value(bytes@) as u32)
                }),
            decreases n - i,
        {
            if i >= 5 {
                proof {
                    lemma_value_lower_bound(bytes@);
                    lemma_pow128_monotone(5, (n - 1) as nat);
                    reveal_with_fuel(pow128, 6);
                }
                return Err(String::from_str("Shortname value too large for u32"));
            }
            let b = bytes[i];
            let c = (b & 0x7f) as u32;
            assert(c == b % 128) by (bit_vector)
                requires
                    c == (b & 0x7f) as u32,
            ;
            proof {
                lemma_shift_term(c, i as u32);
                lemma_value_push(bytes@.take(i as int), bytes@[i as int]);
                assert(bytes@.take(i as int + 1) == bytes@.take(i as int).push(bytes@[i as int]));
                lemma_value_prefix_le(bytes@, i as int + 1);
            }
            match actual_checked_shl(c, (i as u32) * 7) {
                None => {
                    return Err(String::from_str("Shortname value too large for u32"));
                },
                Some(term) => {
                    proof {
                        reveal_with_fuel(pow128, 6);
                        assert(pow128((i + 1) as nat) == 128 * pow128(i as nat));
                        assert(term as nat == c * pow128(i as nat));
                        assert(value + c * pow128(i as nat) < pow128((i + 1) as nat)) by (
                        nonlinear_arith)
                            requires
                                value < pow128(i as nat),
                                c < 128,
                                pow128((i + 1) as nat) == 128 * pow128(i as nat),
                        ;
                        if i == 4 {
                            assert(pow128(4) == 268435456);
                            assert(pow128(i as nat) == 268435456);
                            assert(c * pow128(i as nat) == c * 268435456);
                            assert(c < 16);
                            assert(value + term < 0x1_0000_0000);
                        } else {
                            assert(pow128((i + 1) as nat) <= pow128(4)) by {
                                lemma_pow128_monotone((i + 1) as nat, 4);
                            }
                            assert(pow128(4) == 268435456);
                        }
                    }
                    value = value + term;
                },
            }
            i = i + 1;
        }
        proof {
            assert(bytes@.take(n as int) == bytes@);
            lemma_canonical_is_encoding(bytes@);
        }
        Ok(Self { value })
    }

    /// Gets the shortname as it's u32 representation.
    pub fn as_u32(&self) -> (res: u32)
        ensures
            res == self@,
    {
        self.value
    }

    /// Gets the shortname as it's bytes representation.
    ///
    /// Invariants:
    /// - At least one byte long.
    /// - Last byte is less than 0x80.
    /// - Preceding bytes are larger than 0x80.
    pub fn bytes(&self) -> (res: Vec<u8>)
        ensures
            res@ == leb128_encode(self@ as nat),
            is_canonical_leb128(res@),
    {
        proof {
            lemma_encode_canonical(self.value as nat);
        }
        to_leb128_bytes(self.value)
    }
}

/// Container for a LEB128-encoded shortname, guaranteed to be a callback.
#[non_exhaustive]
#[derive(Eq, PartialEq, Structural, Debug, Clone, Copy)]
pub struct ShortnameCallback {
    /// Internal shortname
    pub shortname: Shortname,
}

impl ShortnameCallback {
    /// Create Shortname from an u32
    pub fn from_u32(value: u32) -> (res: Self)
        ensures
            res.shortname@ == value,
    {
        Self { shortname: Shortname::from_u32(value) }
    }

    /// Create new ShortNameCallback from `shortname`
    pub fn new(shortname: Shortname) -> (res: ShortnameCallback)
        ensures
            res.shortname == shortname,
    {
        ShortnameCallback { shortname }
    }
}

/// Container for a LEB128-encoded shortname, guaranteed to be a ZK computation.
#[non_exhaustive]
#[derive(Eq, PartialEq, Structural, Debug, Clone, Copy)]
pub struct ShortnameZkComputation {
    /// Internal shortname
    pub shortname: Shortname,
}

impl ShortnameZkComputation {
    /// Create Shortname from an u32
    pub fn from_u32(value: u32) -> (res: Self)
        ensures
            res.shortname@ == value,
    {
        Self { shortname: Shortname::from_u32(value) }
    }
}

/// The bytes of every shortname parse back to that shortname.
pub proof fn law_shortname_bytes_parse(v: u32)
    ensures
        shortname_parse(leb128_encode(v as nat)) == Ok::<u32, Seq<char>>(v),
{
    lemma_encode_canonical(v as nat);
}

/// Bytes that parse as a shortname are exactly that shortname's bytes, so the
/// parser accepts precisely the canonical encodings of 32-bit values.
pub proof fn law_shortname_parse_bytes(s: Seq<u8>)
    ensures
        shortname_parse(s) is Ok ==> leb128_encode(shortname_parse(s)->Ok_0 as nat) == s,
        shortname_parse(s) is Ok <==> exists|v: u32| leb128_encode(v as nat) == s,
{
    if shortname_parse(s) is Ok {
        lemma_canonical_is_encoding(s);
        assert(leb128_encode(leb128_value(s) as u32 as nat) == s);
    }
    if exists|v: u32| leb128_encode(v as nat) == s {
        let v = choose|v: u32| leb128_encode(v as nat) == s;
        law_shortname_bytes_parse(v);
    }
}

impl Shortname {
    /// The shortname as it is displayed: its bytes in lower-case hexadecimal.
    pub fn to_display_string(&self) -> (res: String)
        ensures
            res@ == crate::address::hex_string(leb128_encode(self@ as nat), false),
    {
        let bytes = self.bytes();
        let mut s = String::new();
        crate::address::push_hex(&mut s, bytes.as_slice(), false);
        s
    }
}

impl crate::traits::WriteRPC for Shortname {
    /// The bytes of the shortname.
    open spec fn rpc_bytes(&self) -> Seq<u8> {
        leb128_encode(self@ as nat)
    }

    open spec fn rpc_representable(&self) -> bool {
        true
    }

    fn rpc_write_to(&self, writer: &mut Vec<u8>) {
        let bytes = self.bytes();
        crate::traits::write_bytes(writer, bytes.as_slice());
    }
}

} // verus!
