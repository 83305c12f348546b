//! Unsigned LEB128 encoding of 32-bit integers.
use vstd::prelude::*;

verus! {

/// `128` raised to the power `i`.
pub open spec fn pow128(i: nat) -> nat
    decreases i,
{
    if i == 0 {
        1
    } else {
        128 * pow128((i - 1) as nat)
    }
}

/// The canonical LEB128 encoding of `v`: seven bits per byte, least significant
/// group first, every byte but the last with its high bit set.
pub open spec fn leb128_encode(v: nat) -> Seq<u8>
    decreases v,
{
    if v < 128 {
        seq![v as u8]
    } else {
        seq![((v % 128) + 128) as u8] + leb128_encode(v / 128)
    }
}

/// The number that a sequence of LEB128 groups stands for, ignoring the
/// continuation bits.
pub open spec fn leb128_value(s: Seq<u8>) -> nat
    decreases s.len(),
{
    if s.len() == 0 {
        0
    } else {
        (s[0] % 128) as nat + 128 * leb128_value(s.drop_first())
    }
}

/// `s` is in canonical LEB128 form: non-empty, every byte but the last carries
/// the continuation bit, the last does not, and the last is non-zero unless it
/// is the only byte.
pub open spec fn is_canonical_leb128(s: Seq<u8>) -> bool {
    &&& s.len() >= 1
    &&& s.last() < 128
    &&& (forall|i: int| 0 <= i < s.len() - 1 ==> #[trigger] s[i] >= 128)
    &&& (s.len() > 1 ==> s.last() != 0)
}

pub proof fn lemma_pow128_positive(i: nat)
    ensures
        pow128(i) >= 1,
    decreases i,
{
    if i > 0 {
        lemma_pow128_positive((i - 1) as nat);
    }
}

/// The encoding is canonical and decodes back to the encoded number.
pub proof fn lemma_encode_canonical(v: nat)
    ensures
        is_canonical_leb128(leb128_encode(v)),
        leb128_value(leb128_encode(v)) == v,
    decreases v,
{
    let s = leb128_encode(v);
    if v >= 128 {
        let rest = leb128_encode(v / 128);
        lemma_encode_canonical(v / 128);
        assert(s == seq![((v % 128) + 128) as u8] + rest);
        assert(s.drop_first() == rest);
        assert forall|i: int| 0 <= i < s.len() - 1 implies #[trigger] s[i] >= 128 by {
            if i > 0 {
                assert(s[i] == rest[i - 1]);
            }
        }
        if rest.len() == 1 {
            assert(v / 128 >= 1);
            assert(rest == seq![(v / 128) as u8]);
        }
        assert(s[0] % 128 == v % 128);
        assert(leb128_value(s) == (v % 128) as nat + 128 * (v / 128));
        assert((v % 128) as nat + 128 * (v / 128) == v) by (nonlinear_arith);
    } else {
        assert(s == seq![v as u8]);
        assert(leb128_value(s.drop_first()) == 0);
    }
}

/// A canonical encoding of a non-trivial number ends in a non-zero group, so
/// the number is at least `128^(len-1)`.
pub proof fn lemma_value_lower_bound(s: Seq<u8>)
    requires
        is_canonical_leb128(s),
    ensures
        s.len() > 1 ==> leb128_value(s) >= pow128((s.len() - 1) as nat),
        s.len() > 1 ==> leb128_value(s) >= 128,
    decreases s.len(),
{
    if s.len() == 1 {
        assert(leb128_value(s.drop_first()) == 0);
        if s.last() == 0 {
            assert(leb128_value(s) == 0);
        }
    } else {
        let rest = s.drop_first();
        assert(rest.last() == s.last());
        assert forall|i: int| 0 <= i < rest.len() - 1 implies #[trigger] rest[i] >= 128 by {
            assert(rest[i] == s[i + 1]);
        }
        lemma_value_lower_bound(rest);
        lemma_pow128_positive((rest.len() - 1) as nat);
        if rest.len() == 1 {
            assert(rest.last() != 0);
            assert(leb128_value(rest.drop_first()) == 0);
            assert(leb128_value(rest) == (rest[0] % 128) as nat);
        }
        assert(pow128((s.len() - 1) as nat) == 128 * pow128((rest.len() - 1) as nat));
    }
}

/// Canonical sequences are exactly the encodings of their values.
pub proof fn lemma_canonical_is_encoding(s: Seq<u8>)
    requires
        is_canonical_leb128(s),
    ensures
        leb128_encode(leb128_value(s)) == s,
    decreases s.len(),
{
    if s.len() == 1 {
        assert(leb128_value(s.drop_first()) == 0);
        assert(leb128_value(s) == s[0] as nat);
        assert(leb128_encode(leb128_value(s)) == s);
    } else {
        let rest = s.drop_first();
        assert(rest.last() == s.last());
        assert forall|i: int| 0 <= i < rest.len() - 1 implies #[trigger] rest[i] >= 128 by {
            assert(rest[i] == s[i + 1]);
        }
        lemma_canonical_is_encoding(rest);
        lemma_value_lower_bound(rest);
        lemma_pow128_positive((rest.len() - 1) as nat);
        if rest.len() == 1 {
            assert(leb128_value(rest.drop_first()) == 0);
            assert(leb128_value(rest) == rest[0] as nat);
        }
        let d = leb128_value(rest);
        let v = leb128_value(s);
        assert(s[0] >= 128);
        assert(v == (s[0] % 128) as nat + 128 * d);
        assert(v % 128 == s[0] % 128) by (nonlinear_arith)
            requires
                v == (s[0] % 128) as nat + 128 * d,
        ;
        assert(v / 128 == d) by (nonlinear_arith)
            requires
                v == (s[0] % 128) as nat + 128 * d,
        ;
        assert(leb128_encode(v) == seq![((v % 128) + 128) as u8] + leb128_encode(d));
        assert(leb128_encode(v) == s);
    }
}

/// The value of a sequence extended by one group.
pub proof fn lemma_value_push(s: Seq<u8>, b: u8)
    ensures
        leb128_value(s.push(b)) == leb128_value(s) + (b % 128) as nat * pow128(s.len()),
    decreases s.len(),
{
    if s.len() == 0 {
        assert(leb128_value(s.push(b).drop_first()) == 0);
        assert(leb128_value(s) == 0);
        assert(s.push(b)[0] == b);
        assert(pow128(0) == 1);
    } else {
        let sp = s.push(b);
        assert(sp.drop_first() == s.drop_first().push(b));
        assert(sp[0] == s[0]);
        lemma_value_push(s.drop_first(), b);
        let r = leb128_value(s.drop_first());
        let p = pow128((s.len() - 1) as nat);
        let c = (b % 128) as nat;
        let h = (s[0] % 128) as nat;
        assert(leb128_value(sp) == h + 128 * (r + c * p));
        assert(leb128_value(s) == h + 128 * r);
        assert(pow128(s.len()) == 128 * p);
        assert(h + 128 * (r + c * p) == (h + 128 * r) + c * (128 * p)) by (nonlinear_arith);
    }
}

/// Encodes an unsigned 32-bit integer as LEB128.
pub fn to_leb128_bytes(value: u32) -> (result: Vec<u8>)
    ensures
        result@ == leb128_encode(value as nat),
{
    let ghost original = value as nat;
    if value == 0 {
        return vec![0];
    }
    let mut value = value;
    let mut result: Vec<u8> = Vec::new();
    while value != 0
        invariant
            value != 0 ==> result@ + leb128_encode(value as nat) == leb128_encode(original),
            value == 0 ==> result@ == leb128_encode(original),
        decreases value,
    {
        let lower_seven = value & 0x7f;
        let old_value = value;
        value = value >> 7;
        assert(lower_seven == old_value % 128 && value == old_value / 128) by (bit_vector)
            requires
                lower_seven == old_value & 0x7f,
                value == old_value >> 7,
        ;
        let high_bit: u32 = if value != 0 {
            0x80
        } else {
            0
        };
        assert((lower_seven | high_bit) == lower_seven + high_bit) by (bit_vector)
            requires
                lower_seven < 128,
                high_bit == 0 || high_bit == 128,
        ;
        let ghost before = result@;
        result.push((lower_seven | high_bit) as u8);
        proof {
            if value != 0 {
                assert(leb128_encode(old_value as nat) == seq![((old_value % 128) + 128) as u8]
                    + leb128_encode(value as nat));
                assert(result@ + leb128_encode(value as nat) == before + leb128_encode(
                    old_value as nat,
                ));
            } else {
                assert(leb128_encode(old_value as nat) == seq![old_value as u8]);
            }
        }
    }
    result
}

} // verus!
