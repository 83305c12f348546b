//! The binary formats of contracts.
//!
//! - [`ReadWriteState`]: the State format, little-endian, used for contract state.
//! - [`ReadRPC`] and [`WriteRPC`]: the RPC format, big-endian, used for invocations.
//!
//! Every format is stated by two spec functions: the bytes that a value is written
//! as, and what parsing a byte sequence yields (the deep view of the value read and
//! the number of bytes consumed). Reading a value's bytes gives the value back.
use vstd::prelude::*;

pub mod ints;
pub mod misc;
pub mod vec;

verus! {

/// `256` raised to the power `n`.
pub open spec fn pow256(n: nat) -> nat
    decreases n,
{
    if n == 0 {
        1
    } else {
        256 * pow256((n - 1) as nat)
    }
}

/// The `n` least significant bytes of `v`, least significant first.
pub open spec fn le_bytes(v: nat, n: nat) -> Seq<u8>
    decreases n,
{
    if n == 0 {
        Seq::empty()
    } else {
        seq![(v % 256) as u8] + le_bytes(v / 256, (n - 1) as nat)
    }
}

/// The number that little-endian bytes stand for.
pub open spec fn le_value(s: Seq<u8>) -> nat
    decreases s.len(),
{
    if s.len() == 0 {
        0
    } else {
        s[0] as nat + 256 * le_value(s.drop_first())
    }
}

/// The `n` least significant bytes of `v`, most significant first.
pub open spec fn be_bytes(v: nat, n: nat) -> Seq<u8> {
    le_bytes(v, n).reverse()
}

/// The number that big-endian bytes stand for.
pub open spec fn be_value(s: Seq<u8>) -> nat {
    le_value(s.reverse())
}

/// Marks implementations of the State serialization format.
///
/// For any value `v` of a type with this trait, the serialization `b` of `v`
/// deserializes to a value identical to `v` (see `lemma_state_roundtrip`).
pub trait ReadWriteState: Sized + DeepView {
    /// The bytes that `self` is written as.
    spec fn state_bytes(&self) -> Seq<u8>;

    /// Whether `self` fits the format's limits (lengths are written as 32-bit
    /// numbers).
    spec fn state_representable(&self) -> bool;

    /// What reading from `data` yields: the deep view of the value and the
    /// number of bytes read, or `None` where `data` holds no value of the type.
    spec fn state_parse(data: Seq<u8>) -> Option<(<Self as DeepView>::V, nat)>;

    /// Deserialization method for state.
    fn state_read_from(reader: &mut &[u8]) -> (res: Self)
        requires
            Self::state_parse(old(reader)@) is Some,
        ensures
            res.deep_view() == Self::state_parse(old(reader)@)->Some_0.0,
            Self::state_parse(old(reader)@)->Some_0.1 <= old(reader)@.len(),
            final(reader)@ == old(reader)@.skip(
                Self::state_parse(old(reader)@)->Some_0.1 as int,
            ),
    ;

    /// Serialization method for state.
    fn state_write_to(&self, writer: &mut Vec<u8>)
        ensures
            final(writer)@ == old(writer)@ + self.state_bytes(),
    ;

    /// The bytes of `self`, followed by anything, parse as `self`, consuming
    /// exactly its bytes.
    proof fn lemma_state_roundtrip(&self, rest: Seq<u8>)
        requires
            self.state_representable(),
        ensures
            Self::state_parse(self.state_bytes() + rest) == Some(
                (self.deep_view(), self.state_bytes().len()),
            ),
    ;
}

/// State formats with one encoding of each value: the bytes that are read are
/// the bytes that the value read is written as.
pub trait StateCanonical: ReadWriteState {
    /// The bytes that a value of the given deep view is written as.
    spec fn view_state_bytes(v: <Self as DeepView>::V) -> Seq<u8>;

    /// A value is written as the bytes of its deep view.
    proof fn lemma_bytes_follow_view(&self)
        ensures
            Self::view_state_bytes(self.deep_view()) == self.state_bytes(),
    ;

    /// Bytes that are read are the bytes of the value read.
    proof fn lemma_read_bytes_are_canonical(data: Seq<u8>)
        ensures
            Self::state_parse(data) matches Some((v, n)) ==> n <= data.len() && data.take(n as int)
                == Self::view_state_bytes(v),
    ;
}

/// Writing a value that was read gives back the bytes that were read.
pub proof fn law_state_reserializes<T: StateCanonical>(data: Seq<u8>, value: T)
    requires
        T::state_parse(data) is Some,
        value.deep_view() == T::state_parse(data)->Some_0.0,
    ensures
        value.state_bytes() == data.take(T::state_parse(data)->Some_0.1 as int),
{
    T::lemma_read_bytes_are_canonical(data);
    value.lemma_bytes_follow_view();
}

/// Marks types that can be read from the RPC format.
pub trait ReadRPC: Sized + DeepView {
    /// What reading from `data` yields: the deep view of the value and the
    /// number of bytes read, or `None` where `data` holds no value of the type.
    spec fn rpc_parse(data: Seq<u8>) -> Option<(<Self as DeepView>::V, nat)>;

    /// Deserialization method for RPC arguments.
    fn rpc_read_from(reader: &mut &[u8]) -> (res: Self)
        requires
            Self::rpc_parse(old(reader)@) is Some,
        ensures
            res.deep_view() == Self::rpc_parse(old(reader)@)->Some_0.0,
            Self::rpc_parse(old(reader)@)->Some_0.1 <= old(reader)@.len(),
            final(reader)@ == old(reader)@.skip(Self::rpc_parse(old(reader)@)->Some_0.1 as int),
    ;
}

/// Marks types that can be written in the RPC format.
pub trait WriteRPC: Sized {
    /// The bytes that `self` is written as.
    spec fn rpc_bytes(&self) -> Seq<u8>;

    /// Whether `self` fits the format's limits (lengths are written as 32-bit
    /// numbers).
    spec fn rpc_representable(&self) -> bool;

    /// Serialization method for RPC arguments.
    fn rpc_write_to(&self, writer: &mut Vec<u8>)
        ensures
            final(writer)@ == old(writer)@ + self.rpc_bytes(),
    ;
}

/// Types whose RPC serialization reads back as the value written.
pub trait RpcRoundtrip: ReadRPC + WriteRPC {
    /// The RPC bytes of `self`, followed by anything, parse as `self`,
    /// consuming exactly its bytes.
    proof fn lemma_rpc_roundtrip(&self, rest: Seq<u8>)
        requires
            self.rpc_representable(),
        ensures
            Self::rpc_parse(self.rpc_bytes() + rest) == Some(
                (self.deep_view(), self.rpc_bytes().len()),
            ),
    ;
}

pub proof fn lemma_pow256_positive(n: nat)
    ensures
        pow256(n) >= 1,
    decreases n,
{
    if n > 0 {
        lemma_pow256_positive((n - 1) as nat);
    }
}

pub proof fn lemma_le_bytes_len(v: nat, n: nat)
    ensures
        le_bytes(v, n).len() == n,
    decreases n,
{
    if n > 0 {
        lemma_le_bytes_len(v / 256, (n - 1) as nat);
    }
}

/// Little-endian bytes read back as the number written.
pub proof fn lemma_le_roundtrip(v: nat, n: nat)
    requires
        v < pow256(n),
    ensures
        le_value(le_bytes(v, n)) == v,
        le_bytes(v, n).len() == n,
    decreases n,
{
    lemma_le_bytes_len(v, n);
    if n > 0 {
        let s = le_bytes(v, n);
        assert(v / 256 < pow256((n - 1) as nat)) by (nonlinear_arith)
            requires
                v < pow256(n),
                pow256(n) == 256 * pow256((n - 1) as nat),
        ;
        lemma_le_roundtrip(v / 256, (n - 1) as nat);
        assert(s.drop_first() == le_bytes(v / 256, (n - 1) as nat));
        assert(v % 256 + 256 * (v / 256) == v) by (nonlinear_arith);
    } else {
        assert(v == 0);
    }
}

/// The value of `n` little-endian bytes is below `256^n`.
pub proof fn lemma_le_value_bound(s: Seq<u8>)
    ensures
        le_value(s) < pow256(s.len()),
    decreases s.len(),
{
    if s.len() > 0 {
        lemma_le_value_bound(s.drop_first());
        let r = le_value(s.drop_first());
        assert(s[0] as nat + 256 * r < 256 * pow256((s.len() - 1) as nat)) by (nonlinear_arith)
            requires
                r < pow256((s.len() - 1) as nat),
                s[0] < 256,
        ;
    }
}

/// Big-endian bytes read back as the number written.
pub proof fn lemma_be_roundtrip(v: nat, n: nat)
    requires
        v < pow256(n),
    ensures
        be_value(be_bytes(v, n)) == v,
        be_bytes(v, n).len() == n,
{
    lemma_le_roundtrip(v, n);
    assert(le_bytes(v, n).reverse().reverse() =~= le_bytes(v, n));
}

/// Bytes read as a little-endian number are written back as those bytes.
pub proof fn lemma_le_bytes_of_value(s: Seq<u8>)
    ensures
        le_bytes(le_value(s), s.len()) == s,
    decreases s.len(),
{
    if s.len() > 0 {
        let r = le_value(s.drop_first());
        let v = le_value(s);
        lemma_le_bytes_of_value(s.drop_first());
        assert(v == s[0] as nat + 256 * r);
        assert(v % 256 == s[0] as nat && v / 256 == r) by (nonlinear_arith)
            requires
                v == s[0] as nat + 256 * r,
                s[0] < 256,
        ;
        assert(le_bytes(v, s.len()) =~= seq![s[0]] + le_bytes(r, (s.len() - 1) as nat));
        assert(seq![s[0]] + s.drop_first() =~= s);
    } else {
        assert(le_bytes(le_value(s), 0) =~= s);
    }
}

/// Bytes that read as an unsigned number are written back as the same bytes,
/// in both byte orders: the formats of unsigned numbers have one encoding of
/// each value.
pub proof fn law_uint_reserializes(data: Seq<u8>, n: nat)
    requires
        n <= data.len(),
    ensures
        le_bytes(le_value(data.take(n as int)), n) == data.take(n as int),
        be_bytes(be_value(data.take(n as int)), n) == data.take(n as int),
{
    lemma_le_bytes_of_value(data.take(n as int));
    lemma_le_bytes_of_value(data.take(n as int).reverse());
    assert(data.take(n as int).reverse().reverse() =~= data.take(n as int));
}

/// Writes the `n` least significant bytes of `v`, least significant first.
pub fn write_uint_le(writer: &mut Vec<u8>, v: u128, n: usize)
    requires
        n <= 16,
    ensures
        final(writer)@ == old(writer)@ + le_bytes(v as nat, n as nat),
{
    let mut x = v;
    let mut i: usize = 0;
    while i < n
        invariant
            i <= n,
            writer@ + le_bytes(x as nat, (n - i) as nat) == old(writer)@ + le_bytes(v as nat, n as nat),
        decreases n - i,
    {
        let ghost before = writer@;
        let ghost x0 = x as nat;
        writer.push((x % 256) as u8);
        x = x / 256;
        assert(le_bytes(x0, (n - i) as nat) == seq![(x0 % 256) as u8] + le_bytes(
            x as nat,
            (n - i - 1) as nat,
        ));
        assert(writer@ + le_bytes(x as nat, (n - i - 1) as nat) == before + le_bytes(
            x0,
            (n - i) as nat,
        ));
        i = i + 1;
    }
    assert(le_bytes(x as nat, 0) == Seq::<u8>::empty());
    assert(writer@ + Seq::<u8>::empty() == writer@);
}

/// Writes the `n` least significant bytes of `v`, most significant first.
pub fn write_uint_be(writer: &mut Vec<u8>, v: u128, n: usize)
    requires
        n <= 16,
    ensures
        final(writer)@ == old(writer)@ + be_bytes(v as nat, n as nat),
{
    let mut le: Vec<u8> = Vec::new();
    write_uint_le(&mut le, v, n);
    proof {
        lemma_le_bytes_len(v as nat, n as nat);
        assert(le@ =~= le_bytes(v as nat, n as nat));
    }
    let mut i: usize = 0;
    while i < n
        invariant
            i <= n,
            le@ == le_bytes(v as nat, n as nat),
            le@.len() == n,
            writer@ == old(writer)@ + le@.reverse().take(i as int),
        decreases n - i,
    {
        writer.push(le[n - 1 - i]);
        assert(le@.reverse().take(i + 1) == le@.reverse().take(i as int).push(le@[n - 1 - i]));
        i = i + 1;
    }
    assert(le@.reverse().take(n as int) =~= le@.reverse());
}

/// Reads `n` bytes as a little-endian number.
pub fn read_uint_le(reader: &mut &[u8], n: usize) -> (res: u128)
    requires
        n <= 16,
        n <= old(reader)@.len(),
    ensures
        res as nat == le_value(old(reader)@.take(n as int)),
        final(reader)@ == old(reader)@.skip(n as int),
{
    let (head, tail) = reader.split_at(n);
    *reader = tail;
    let mut acc: u128 = 0;
    let mut k: usize = n;
    proof {
        assert(head@.subrange(n as int, n as int).len() == 0);
    }
    while k > 0
        invariant
            k <= n,
            n <= 16,
            head@.len() == n,
            acc as nat == le_value(head@.subrange(k as int, n as int)),
            acc < pow256((n - k) as nat),
        decreases k,
    {
        let ghost sub = head@.subrange(k - 1, n as int);
        assert(sub.drop_first() == head@.subrange(k as int, n as int));
        assert(sub[0] == head@[k - 1]);
        proof {
            lemma_le_value_bound(sub);
            assert(pow256((n - k + 1) as nat) <= pow256(16)) by {
                lemma_pow256_monotone((n - k + 1) as nat, 16);
            }
            assert(pow256(16) == 0x1_0000_0000_0000_0000_0000_0000_0000_0000) by {
                reveal_with_fuel(pow256, 17);
            }
            assert(acc * 256 + head@[k - 1] < pow256((n - k + 1) as nat)) by (nonlinear_arith)
                requires
                    acc < pow256((n - k) as nat),
                    head@[k - 1] < 256,
                    pow256((n - k + 1) as nat) == 256 * pow256((n - k) as nat),
            ;
        }
        acc = acc * 256 + head[k - 1] as u128;
        k = k - 1;
    }
    assert(head@.subrange(0, n as int) == head@);
    acc
}

/// Reads `n` bytes as a big-endian number.
pub fn read_uint_be(reader: &mut &[u8], n: usize) -> (res: u128)
    requires
        n <= 16,
        n <= old(reader)@.len(),
    ensures
        res as nat == be_value(old(reader)@.take(n as int)),
        final(reader)@ == old(reader)@.skip(n as int),
{
    let (head, tail) = reader.split_at(n);
    *reader = tail;
    let mut acc: u128 = 0;
    let mut k: usize = 0;
    while k < n
        invariant
            k <= n,
            n <= 16,
            head@.len() == n,
            acc as nat == be_value(head@.take(k as int)),
            acc < pow256(k as nat),
        decreases n - k,
    {
        let ghost pre = head@.take(k as int);
        let ghost next = head@.take(k + 1);
        assert(next.reverse() =~= seq![head@[k as int]] + pre.reverse());
        assert((seq![head@[k as int]] + pre.reverse()).drop_first() =~= pre.reverse());
        proof {
            assert(pow256((k + 1) as nat) <= pow256(16)) by {
                lemma_pow256_monotone((k + 1) as nat, 16);
            }
            assert(pow256(16) == 0x1_0000_0000_0000_0000_0000_0000_0000_0000) by {
                reveal_with_fuel(pow256, 17);
            }
            assert(acc * 256 + head@[k as int] < pow256((k + 1) as nat)) by (nonlinear_arith)
                requires
                    acc < pow256(k as nat),
                    head@[k as int] < 256,
                    pow256((k + 1) as nat) == 256 * pow256(k as nat),
            ;
        }
        acc = acc * 256 + head[k] as u128;
        k = k + 1;
    }
    assert(head@.take(n as int) =~= old(reader)@.take(n as int));
    acc
}

/// Appends `bytes` to `writer`.
pub fn write_bytes(writer: &mut Vec<u8>, bytes: &[u8])
    ensures
        final(writer)@ == old(writer)@ + bytes@,
{
    let mut i: usize = 0;
    while i < bytes.len()
        invariant
            i <= bytes@.len(),
            writer@ == old(writer)@ + bytes@.take(i as int),
        decreases bytes@.len() - i,
    {
        writer.push(bytes[i]);
        assert(bytes@.take(i + 1) == bytes@.take(i as int).push(bytes@[i as int]));
        i = i + 1;
    }
    assert(bytes@.take(bytes@.len() as int) == bytes@);
}

/// Reads `n` bytes.
pub fn read_bytes(reader: &mut &[u8], n: usize) -> (res: Vec<u8>)
    requires
        n <= old(reader)@.len(),
    ensures
        res@ == old(reader)@.take(n as int),
        final(reader)@ == old(reader)@.skip(n as int),
{
    let (head, tail) = reader.split_at(n);
    *reader = tail;
    let mut res: Vec<u8> = Vec::new();
    write_bytes(&mut res, head);
    assert(head@ =~= old(reader)@.take(n as int));
    res
}

pub proof fn lemma_pow256_monotone(i: nat, j: nat)
    requires
        i <= j,
    ensures
        pow256(i) <= pow256(j),
    decreases j,
{
    if i < j {
        lemma_pow256_monotone(i, (j - 1) as nat);
        lemma_pow256_positive((j - 1) as nat);
    }
}

} // verus!
