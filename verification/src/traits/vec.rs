//! The State and RPC formats of `Vec` and of byte arrays.
use vstd::prelude::*;

use super::{
    be_bytes, be_value, le_bytes, le_value, lemma_be_roundtrip, lemma_le_roundtrip,
    lemma_le_value_bound, pow256, read_bytes, read_uint_be, read_uint_le, write_bytes,
    write_uint_be, write_uint_le, ReadRPC, ReadWriteState, RpcRoundtrip, StateCanonical, WriteRPC,
};

verus! {

/// The State bytes of the elements of `s`, one after another.
pub open spec fn state_concat<T: ReadWriteState>(s: Seq<T>) -> Seq<u8>
    decreases s.len(),
{
    if s.len() == 0 {
        Seq::empty()
    } else {
        s[0].state_bytes() + state_concat(s.drop_first())
    }
}

/// The RPC bytes of the elements of `s`, one after another.
pub open spec fn rpc_concat<T: WriteRPC>(s: Seq<T>) -> Seq<u8>
    decreases s.len(),
{
    if s.len() == 0 {
        Seq::empty()
    } else {
        s[0].rpc_bytes() + rpc_concat(s.drop_first())
    }
}

/// A byte is written as itself, in both formats.
pub proof fn lemma_byte_bytes(b: u8)
    ensures
        b.rpc_bytes() == seq![b],
        b.state_bytes() == seq![b],
{
    assert(le_bytes(b as nat, 1) =~= seq![b]) by {
        reveal_with_fuel(le_bytes, 2);
    }
    assert(seq![b].reverse() =~= seq![b]);
}

/// Bytes, one after another, are the bytes themselves in the RPC format.
pub proof fn lemma_rpc_concat_bytes(s: Seq<u8>)
    ensures
        rpc_concat(s) == s,
    decreases s.len(),
{
    if s.len() > 0 {
        lemma_rpc_concat_bytes(s.drop_first());
        lemma_byte_bytes(s[0]);
        assert(seq![s[0]] + s.drop_first() =~= s);
    }
}

/// Bytes, one after another, are the bytes themselves in the State format.
pub proof fn lemma_state_concat_bytes(s: Seq<u8>)
    ensures
        state_concat(s) == s,
    decreases s.len(),
{
    if s.len() > 0 {
        lemma_state_concat_bytes(s.drop_first());
        lemma_byte_bytes(s[0]);
        assert(seq![s[0]] + s.drop_first() =~= s);
    }
}

/// Reads `count` values one after another in the State format.
pub open spec fn state_parse_many<T: ReadWriteState>(data: Seq<u8>, count: nat) -> Option<
    (Seq<T::V>, nat),
>
    decreases count,
{
    if count == 0 {
        Some((Seq::empty(), 0))
    } else {
        match T::state_parse(data) {
            None => None,
            Some((v, n)) => match state_parse_many::<T>(data.skip(n as int), (count - 1) as nat) {
                None => None,
                Some((vs, m)) => Some((seq![v] + vs, n + m)),
            },
        }
    }
}

/// Reads `count` values one after another in the RPC format.
pub open spec fn rpc_parse_many<T: ReadRPC>(data: Seq<u8>, count: nat) -> Option<
    (Seq<T::V>, nat),
>
    decreases count,
{
    if count == 0 {
        Some((Seq::empty(), 0))
    } else {
        match T::rpc_parse(data) {
            None => None,
            Some((v, n)) => match rpc_parse_many::<T>(data.skip(n as int), (count - 1) as nat) {
                None => None,
                Some((vs, m)) => Some((seq![v] + vs, n + m)),
            },
        }
    }
}

/// The deep views of the elements of `s`.
pub open spec fn deep_views<T: DeepView>(s: Seq<T>) -> Seq<T::V> {
    Seq::new(s.len(), |i: int| s[i].deep_view())
}

proof fn lemma_state_concat_push<T: ReadWriteState>(s: Seq<T>, x: T)
    ensures
        state_concat(s.push(x)) == state_concat(s) + x.state_bytes(),
    decreases s.len(),
{
    if s.len() == 0 {
        assert(s.push(x).drop_first() =~= Seq::<T>::empty());
        assert(s.push(x)[0] == x);
        assert(state_concat(s.push(x).drop_first()) =~= Seq::<u8>::empty());
        assert(state_concat(s) =~= Seq::<u8>::empty());
        assert(state_concat(s.push(x)) =~= x.state_bytes());
    } else {
        assert(s.push(x).drop_first() =~= s.drop_first().push(x));
        lemma_state_concat_push(s.drop_first(), x);
        assert(state_concat(s.push(x)) =~= state_concat(s) + x.state_bytes());
    }
}

proof fn lemma_rpc_concat_push<T: WriteRPC>(s: Seq<T>, x: T)
    ensures
        rpc_concat(s.push(x)) == rpc_concat(s) + x.rpc_bytes(),
    decreases s.len(),
{
    if s.len() == 0 {
        assert(s.push(x).drop_first() =~= Seq::<T>::empty());
        assert(s.push(x)[0] == x);
        assert(rpc_concat(s.push(x).drop_first()) =~= Seq::<u8>::empty());
        assert(rpc_concat(s) =~= Seq::<u8>::empty());
        assert(rpc_concat(s.push(x)) =~= x.rpc_bytes());
    } else {
        assert(s.push(x).drop_first() =~= s.drop_first().push(x));
        lemma_rpc_concat_push(s.drop_first(), x);
        assert(rpc_concat(s.push(x)) =~= rpc_concat(s) + x.rpc_bytes());
    }
}

proof fn lemma_state_parse_many_roundtrip<T: ReadWriteState>(s: Seq<T>, rest: Seq<u8>)
    requires
        forall|i: int| 0 <= i < s.len() ==> #[trigger] s[i].state_representable(),
    ensures
        state_parse_many::<T>(state_concat(s) + rest, s.len()) == Some(
            (deep_views(s), state_concat(s).len()),
        ),
    decreases s.len(),
{
    if s.len() == 0 {
        assert(deep_views(s) =~= Seq::<T::V>::empty());
    } else {
        let tail = s.drop_first();
        assert forall|i: int| 0 <= i < tail.len() implies #[trigger] tail[i].state_representable() by {
            assert(tail[i] == s[i + 1]);
        }
        lemma_state_parse_many_roundtrip(tail, rest);
        let data = state_concat(s) + rest;
        assert(data =~= s[0].state_bytes() + (state_concat(tail) + rest));
        s[0].lemma_state_roundtrip(state_concat(tail) + rest);
        assert(data.skip(s[0].state_bytes().len() as int) =~= state_concat(tail) + rest);
        assert(deep_views(s) =~= seq![s[0].deep_view()] + deep_views(tail));
    }
}

proof fn lemma_rpc_parse_many_roundtrip<T: RpcRoundtrip>(s: Seq<T>, rest: Seq<u8>)
    requires
        forall|i: int| 0 <= i < s.len() ==> #[trigger] s[i].rpc_representable(),
    ensures
        rpc_parse_many::<T>(rpc_concat(s) + rest, s.len()) == Some(
            (deep_views(s), rpc_concat(s).len()),
        ),
    decreases s.len(),
{
    if s.len() == 0 {
        assert(deep_views(s) =~= Seq::<T::V>::empty());
    } else {
        let tail = s.drop_first();
        assert forall|i: int| 0 <= i < tail.len() implies #[trigger] tail[i].rpc_representable() by {
            assert(tail[i] == s[i + 1]);
        }
        lemma_rpc_parse_many_roundtrip(tail, rest);
        let data = rpc_concat(s) + rest;
        assert(data =~= s[0].rpc_bytes() + (rpc_concat(tail) + rest));
        s[0].lemma_rpc_roundtrip(rpc_concat(tail) + rest);
        assert(data.skip(s[0].rpc_bytes().len() as int) =~= rpc_concat(tail) + rest);
        assert(deep_views(s) =~= seq![s[0].deep_view()] + deep_views(tail));
    }
}

/// Writes the elements of `items` one after another in the State format.
pub fn state_write_all<T: ReadWriteState>(items: &[T], writer: &mut Vec<u8>)
    ensures
        final(writer)@ == old(writer)@ + state_concat(items@),
{
    let mut i: usize = 0;
    while i < items.len()
        invariant
            i <= items@.len(),
            writer@ == old(writer)@ + state_concat(items@.take(i as int)),
        decreases items@.len() - i,
    {
        items[i].state_write_to(writer);
        proof {
            assert(items@.take(i + 1) =~= items@.take(i as int).push(items@[i as int]));
            lemma_state_concat_push(items@.take(i as int), items@[i as int]);
        }
        i = i + 1;
    }
    assert(items@.take(items@.len() as int) =~= items@);
}

/// Writes the elements of `items` one after another in the RPC format.
pub fn rpc_write_all<T: WriteRPC>(items: &[T], writer: &mut Vec<u8>)
    ensures
        final(writer)@ == old(writer)@ + rpc_concat(items@),
{
    let mut i: usize = 0;
    while i < items.len()
        invariant
            i <= items@.len(),
            writer@ == old(writer)@ + rpc_concat(items@.take(i as int)),
        decreases items@.len() - i,
    {
        items[i].rpc_write_to(writer);
        proof {
            assert(items@.take(i + 1) =~= items@.take(i as int).push(items@[i as int]));
            lemma_rpc_concat_push(items@.take(i as int), items@[i as int]);
        }
        i = i + 1;
    }
    assert(items@.take(items@.len() as int) =~= items@);
}

/// Reads `count` values one after another in the State format.
pub fn state_read_many<T: ReadWriteState>(reader: &mut &[u8], count: u32) -> (res: Vec<T>)
    requires
        state_parse_many::<T>(old(reader)@, count as nat) is Some,
    ensures
        res.deep_view() == state_parse_many::<T>(old(reader)@, count as nat)->Some_0.0,
        state_parse_many::<T>(old(reader)@, count as nat)->Some_0.1 <= old(reader)@.len(),
        final(reader)@ == old(reader)@.skip(
            state_parse_many::<T>(old(reader)@, count as nat)->Some_0.1 as int,
        ),
{
    let ghost data = reader@;
    let ghost all = state_parse_many::<T>(data, count as nat)->Some_0;
    let mut result: Vec<T> = Vec::new();
    let mut i: u32 = 0;
    while i < count
        invariant
            i <= count,
            reader@.len() <= data.len(),
            reader@ == data.skip(data.len() - reader@.len()),
            state_parse_many::<T>(reader@, (count - i) as nat) is Some,
            result.deep_view() + state_parse_many::<T>(reader@, (count - i) as nat)->Some_0.0
                == all.0,
            (data.len() - reader@.len()) + state_parse_many::<T>(
                reader@,
                (count - i) as nat,
            )->Some_0.1 == all.1,
        decreases count - i,
    {
        let ghost r0 = reader@;
        let ghost res0 = result.deep_view();
        let ghost rest = state_parse_many::<T>(r0, (count - i) as nat)->Some_0;
        let x = T::state_read_from(reader);
        let ghost k = T::state_parse(r0)->Some_0.1;
        let ghost tail = state_parse_many::<T>(r0.skip(k as int), (count - i - 1) as nat)->Some_0;
        assert(rest.0 =~= seq![x.deep_view()] + tail.0);
        result.push(x);
        assert(result.deep_view() =~= res0.push(x.deep_view()));
        assert(result.deep_view() + tail.0 =~= res0 + rest.0);
        assert(reader@ =~= data.skip(data.len() - reader@.len()));
        i = i + 1;
    }
    assert(state_parse_many::<T>(reader@, 0)->Some_0.0 =~= Seq::<T::V>::empty());
    assert(result.deep_view() =~= all.0);
    result
}

/// Reads `count` values one after another in the RPC format.
pub fn rpc_read_many<T: ReadRPC>(reader: &mut &[u8], count: u32) -> (res: Vec<T>)
    requires
        rpc_parse_many::<T>(old(reader)@, count as nat) is Some,
    ensures
        res.deep_view() == rpc_parse_many::<T>(old(reader)@, count as nat)->Some_0.0,
        rpc_parse_many::<T>(old(reader)@, count as nat)->Some_0.1 <= old(reader)@.len(),
        final(reader)@ == old(reader)@.skip(
            rpc_parse_many::<T>(old(reader)@, count as nat)->Some_0.1 as int,
        ),
{
    let ghost data = reader@;
    let ghost all = rpc_parse_many::<T>(data, count as nat)->Some_0;
    let mut result: Vec<T> = Vec::new();
    let mut i: u32 = 0;
    while i < count
        invariant
            i <= count,
            reader@.len() <= data.len(),
            reader@ == data.skip(data.len() - reader@.len()),
            rpc_parse_many::<T>(reader@, (count - i) as nat) is Some,
            result.deep_view() + rpc_parse_many::<T>(reader@, (count - i) as nat)->Some_0.0
                == all.0,
            (data.len() - reader@.len()) + rpc_parse_many::<T>(
                reader@,
                (count - i) as nat,
            )->Some_0.1 == all.1,
        decreases count - i,
    {
        let ghost r0 = reader@;
        let ghost res0 = result.deep_view();
        let ghost rest = rpc_parse_many::<T>(r0, (count - i) as nat)->Some_0;
        let x = T::rpc_read_from(reader);
        let ghost k = T::rpc_parse(r0)->Some_0.1;
        let ghost tail = rpc_parse_many::<T>(r0.skip(k as int), (count - i - 1) as nat)->Some_0;
        assert(rest.0 =~= seq![x.deep_view()] + tail.0);
        result.push(x);
        assert(result.deep_view() =~= res0.push(x.deep_view()));
        assert(result.deep_view() + tail.0 =~= res0 + rest.0);
        assert(reader@ =~= data.skip(data.len() - reader@.len()));
        i = i + 1;
    }
    assert(rpc_parse_many::<T>(reader@, 0)->Some_0.0 =~= Seq::<T::V>::empty());
    assert(result.deep_view() =~= all.0);
    result
}

impl<T: ReadWriteState> ReadWriteState for Vec<T> {
    open spec fn state_bytes(&self) -> Seq<u8> {
        le_bytes((self@.len() as u32) as nat, 4) + state_concat(self@)
    }

    open spec fn state_representable(&self) -> bool {
        &&& self@.len() <= u32::MAX
        &&& forall|i: int| 0 <= i < self@.len() ==> #[trigger] self@[i].state_representable()
    }

    open spec fn state_parse(data: Seq<u8>) -> Option<(Seq<T::V>, nat)> {
        if data.len() >= 4 {
            match state_parse_many::<T>(data.skip(4), le_value(data.take(4))) {
                Some((vs, m)) => Some((vs, 4 + m)),
                None => None,
            }
        } else {
            None
        }
    }

    fn state_read_from(reader: &mut &[u8]) -> (res: Self) {
        let ghost data = reader@;
        let count = read_uint_le(reader, 4);
        proof {
            lemma_le_value_bound(data.take(4));
            reveal_with_fuel(pow256, 5);
        }
        let res = state_read_many::<T>(reader, count as u32);
        assert(data.skip(4).skip(
            state_parse_many::<T>(data.skip(4), count as nat)->Some_0.1 as int,
        ) =~= data.skip(4 + state_parse_many::<T>(data.skip(4), count as nat)->Some_0.1 as int));
        res
    }

    fn state_write_to(&self, writer: &mut Vec<u8>) {
        write_uint_le(writer, (self.len() as u32) as u128, 4);
        state_write_all(self.as_slice(), writer);
        assert(writer@ =~= old(writer)@ + (le_bytes((self@.len() as u32) as nat, 4)
            + state_concat(self@)));
    }

    proof fn lemma_state_roundtrip(&self, rest: Seq<u8>) {
        let n = self@.len();
        let data = self.state_bytes() + rest;
        assert(n < pow256(4)) by {
            reveal_with_fuel(pow256, 5);
        }
        lemma_le_roundtrip(n, 4);
        assert(data.take(4) =~= le_bytes(n, 4));
        assert(data.skip(4) =~= state_concat(self@) + rest);
        lemma_state_parse_many_roundtrip(self@, rest);
        assert(deep_views(self@) =~= self.deep_view());
    }
}

impl<T: ReadRPC> ReadRPC for Vec<T> {
    open spec fn rpc_parse(data: Seq<u8>) -> Option<(Seq<T::V>, nat)> {
        if data.len() >= 4 {
            match rpc_parse_many::<T>(data.skip(4), be_value(data.take(4))) {
                Some((vs, m)) => Some((vs, 4 + m)),
                None => None,
            }
        } else {
            None
        }
    }

    fn rpc_read_from(reader: &mut &[u8]) -> (res: Self) {
        let ghost data = reader@;
        let count = read_uint_be(reader, 4);
        proof {
            lemma_le_value_bound(data.take(4).reverse());
            reveal_with_fuel(pow256, 5);
        }
        let res = rpc_read_many::<T>(reader, count as u32);
        assert(data.skip(4).skip(
            rpc_parse_many::<T>(data.skip(4), count as nat)->Some_0.1 as int,
        ) =~= data.skip(4 + rpc_parse_many::<T>(data.skip(4), count as nat)->Some_0.1 as int));
        res
    }
}

impl<T: WriteRPC> WriteRPC for Vec<T> {
    open spec fn rpc_bytes(&self) -> Seq<u8> {
        be_bytes((self@.len() as u32) as nat, 4) + rpc_concat(self@)
    }

    open spec fn rpc_representable(&self) -> bool {
        &&& self@.len() <= u32::MAX
        &&& forall|i: int| 0 <= i < self@.len() ==> #[trigger] self@[i].rpc_representable()
    }

    fn rpc_write_to(&self, writer: &mut Vec<u8>) {
        write_uint_be(writer, (self.len() as u32) as u128, 4);
        rpc_write_all(self.as_slice(), writer);
        assert(writer@ =~= old(writer)@ + (be_bytes((self@.len() as u32) as nat, 4)
            + rpc_concat(self@)));
    }
}

impl<T: RpcRoundtrip> RpcRoundtrip for Vec<T> {
    proof fn lemma_rpc_roundtrip(&self, rest: Seq<u8>) {
        let n = self@.len();
        let data = self.rpc_bytes() + rest;
        assert(n < pow256(4)) by {
            reveal_with_fuel(pow256, 5);
        }
        lemma_be_roundtrip(n, 4);
        assert(data.take(4) =~= be_bytes(n, 4));
        assert(data.skip(4) =~= rpc_concat(self@) + rest);
        lemma_rpc_parse_many_roundtrip(self@, rest);
        assert(deep_views(self@) =~= self.deep_view());
    }
}

/// The State bytes of values of the given deep views, one after another.
pub open spec fn views_state_concat<T: StateCanonical>(vs: Seq<T::V>) -> Seq<u8>
    decreases vs.len(),
{
    if vs.len() == 0 {
        Seq::empty()
    } else {
        T::view_state_bytes(vs[0]) + views_state_concat::<T>(vs.drop_first())
    }
}

proof fn lemma_concat_follows_views<T: StateCanonical>(s: Seq<T>)
    ensures
        state_concat(s) == views_state_concat::<T>(deep_views(s)),
    decreases s.len(),
{
    if s.len() > 0 {
        lemma_concat_follows_views(s.drop_first());
        s[0].lemma_bytes_follow_view();
        assert(deep_views(s).drop_first() =~= deep_views(s.drop_first()));
    }
}

proof fn lemma_parse_many_canonical<T: StateCanonical>(data: Seq<u8>, count: nat)
    ensures
        state_parse_many::<T>(data, count) matches Some((vs, m)) ==> m <= data.len() && vs.len()
            == count && data.take(m as int) == views_state_concat::<T>(vs),
    decreases count,
{
    if count > 0 {
        T::lemma_read_bytes_are_canonical(data);
        if T::state_parse(data) is Some {
            let (v, n) = T::state_parse(data)->Some_0;
            let rest = data.skip(n as int);
            lemma_parse_many_canonical::<T>(rest, (count - 1) as nat);
            if state_parse_many::<T>(rest, (count - 1) as nat) is Some {
                let (vs1, m1) = state_parse_many::<T>(rest, (count - 1) as nat)->Some_0;
                let vs = seq![v] + vs1;
                assert(vs.drop_first() =~= vs1);
                assert(vs[0] == v);
                assert(data.take((n + m1) as int) =~= data.take(n as int) + rest.take(m1 as int));
            }
        }
    } else {
        assert(data.take(0) =~= Seq::<u8>::empty());
    }
}

impl<T: StateCanonical> StateCanonical for Vec<T> {
    open spec fn view_state_bytes(vs: Seq<T::V>) -> Seq<u8> {
        le_bytes((vs.len() as u32) as nat, 4) + views_state_concat::<T>(vs)
    }

    proof fn lemma_bytes_follow_view(&self) {
        lemma_concat_follows_views(self@);
        assert(deep_views(self@) =~= self.deep_view());
    }

    proof fn lemma_read_bytes_are_canonical(data: Seq<u8>) {
        if data.len() >= 4 {
            let count = le_value(data.take(4));
            lemma_parse_many_canonical::<T>(data.skip(4), count);
            lemma_le_value_bound(data.take(4));
            reveal_with_fuel(pow256, 5);
            super::lemma_le_bytes_of_value(data.take(4));
            if state_parse_many::<T>(data.skip(4), count) is Some {
                let m = state_parse_many::<T>(data.skip(4), count)->Some_0.1;
                assert(data.take((4 + m) as int) =~= data.take(4) + data.skip(4).take(m as int));
            }
        }
    }
}

impl<const N: usize> StateCanonical for [u8; N] {
    open spec fn view_state_bytes(v: Seq<u8>) -> Seq<u8> {
        v
    }

    proof fn lemma_bytes_follow_view(&self) {
        assert(self.deep_view() =~= self@);
    }

    proof fn lemma_read_bytes_are_canonical(data: Seq<u8>) {
    }
}

/// Reads `N` bytes into an array.
fn read_byte_array<const N: usize>(reader: &mut &[u8]) -> (res: [u8; N])
    requires
        N <= old(reader)@.len(),
    ensures
        res@ == old(reader)@.take(N as int),
        final(reader)@ == old(reader)@.skip(N as int),
{
    let (head, tail) = reader.split_at(N);
    *reader = tail;
    let mut arr: [u8; N] = vstd::array::array_fill_for_copy_types::<u8, N>(0);
    let mut i: usize = 0;
    while i < N
        invariant
            i <= N,
            head@.len() == N,
            arr@.len() == N,
            forall|j: int| 0 <= j < i ==> arr@[j] == head@[j],
        decreases N - i,
    {
        arr[i] = head[i];
        i = i + 1;
    }
    assert(arr@ =~= old(reader)@.take(N as int));
    arr
}

impl<const N: usize> ReadWriteState for [u8; N] {
    open spec fn state_bytes(&self) -> Seq<u8> {
        self@
    }

    open spec fn state_representable(&self) -> bool {
        true
    }

    open spec fn state_parse(data: Seq<u8>) -> Option<(Seq<u8>, nat)> {
        if data.len() >= N {
            Some((data.take(N as int), N as nat))
        } else {
            None
        }
    }

    fn state_read_from(reader: &mut &[u8]) -> (res: Self) {
        let res = read_byte_array::<N>(reader);
        assert(res.deep_view() =~= res@);
        res
    }

    fn state_write_to(&self, writer: &mut Vec<u8>) {
        write_bytes(writer, self.as_slice());
    }

    proof fn lemma_state_roundtrip(&self, rest: Seq<u8>) {
        assert((self@ + rest).take(N as int) =~= self@);
        assert(self.deep_view() =~= self@);
    }
}

impl<const N: usize> ReadRPC for [u8; N] {
    open spec fn rpc_parse(data: Seq<u8>) -> Option<(Seq<u8>, nat)> {
        if data.len() >= N {
            Some((data.take(N as int), N as nat))
        } else {
            None
        }
    }

    fn rpc_read_from(reader: &mut &[u8]) -> (res: Self) {
        let res = read_byte_array::<N>(reader);
        assert(res.deep_view() =~= res@);
        res
    }
}

impl<const N: usize> WriteRPC for [u8; N] {
    open spec fn rpc_bytes(&self) -> Seq<u8> {
        self@
    }

    open spec fn rpc_representable(&self) -> bool {
        true
    }

    fn rpc_write_to(&self, writer: &mut Vec<u8>) {
        write_bytes(writer, self.as_slice());
    }
}

impl<const N: usize> RpcRoundtrip for [u8; N] {
    proof fn lemma_rpc_roundtrip(&self, rest: Seq<u8>) {
        assert((self@ + rest).take(N as int) =~= self@);
        assert(self.deep_view() =~= self@);
    }
}

/// A double-ended queue is written as the vector of its elements, front to
/// back.
impl<T: ReadWriteState> ReadWriteState for std::collections::VecDeque<T> {
    open spec fn state_bytes(&self) -> Seq<u8> {
        le_bytes((self@.len() as u32) as nat, 4) + state_concat(self@)
    }

    open spec fn state_representable(&self) -> bool {
        &&& self@.len() <= u32::MAX
        &&& forall|i: int| 0 <= i < self@.len() ==> #[trigger] self@[i].state_representable()
    }

    open spec fn state_parse(data: Seq<u8>) -> Option<(Seq<T::V>, nat)> {
        <Vec<T> as ReadWriteState>::state_parse(data)
    }

    fn state_read_from(reader: &mut &[u8]) -> (res: Self) {
        let as_vec = <Vec<T> as ReadWriteState>::state_read_from(reader);
        let ghost vs = as_vec.deep_view();
        let mut items = as_vec;
        let mut rev: Vec<T> = Vec::new();
        while items.len() > 0
            invariant
                items@.len() <= vs.len(),
                forall|i: int| 0 <= i < items@.len() ==> #[trigger] items@[i].deep_view() == vs[i],
                rev@.len() == vs.len() - items@.len(),
                forall|j: int|
                    0 <= j < rev@.len() ==> #[trigger] rev@[j].deep_view() == vs[vs.len() - 1 - j],
            decreases items@.len(),
        {
            let x = items.pop().unwrap();
            rev.push(x);
        }
        let mut res: std::collections::VecDeque<T> = std::collections::VecDeque::new();
        while rev.len() > 0
            invariant
                rev@.len() <= vs.len(),
                forall|j: int|
                    0 <= j < rev@.len() ==> #[trigger] rev@[j].deep_view() == vs[vs.len() - 1 - j],
                res@.len() == vs.len() - rev@.len(),
                forall|i: int| 0 <= i < res@.len() ==> #[trigger] res@[i].deep_view() == vs[i],
            decreases rev@.len(),
        {
            let x = rev.pop().unwrap();
            res.push_back(x);
        }
        assert(res.deep_view() =~= vs);
        res
    }

    fn state_write_to(&self, writer: &mut Vec<u8>) {
        write_uint_le(writer, (self.len() as u32) as u128, 4);
        let ghost start = writer@;
        let mut i: usize = 0;
        while i < self.len()
            invariant
                i <= self@.len(),
                writer@ == start + state_concat(self@.take(i as int)),
            decreases self@.len() - i,
        {
            self[i].state_write_to(writer);
            proof {
                lemma_state_concat_push(self@.take(i as int), self@[i as int]);
                assert(self@.take(i + 1) =~= self@.take(i as int).push(self@[i as int]));
            }
            i = i + 1;
        }
        assert(self@.take(self@.len() as int) =~= self@);
        assert(writer@ =~= old(writer)@ + (le_bytes((self@.len() as u32) as nat, 4)
            + state_concat(self@)));
    }

    proof fn lemma_state_roundtrip(&self, rest: Seq<u8>) {
        let n = self@.len();
        let data = self.state_bytes() + rest;
        assert(n < pow256(4)) by {
            reveal_with_fuel(pow256, 5);
        }
        lemma_le_roundtrip(n, 4);
        assert(data.take(4) =~= le_bytes(n, 4));
        assert(data.skip(4) =~= state_concat(self@) + rest);
        lemma_state_parse_many_roundtrip(self@, rest);
        assert(deep_views(self@) =~= self.deep_view());
    }
}

/// A vector is written as its number of elements in 4 bytes (least significant
/// first in the State format, most significant first in the RPC format), then
/// its elements one after another.
pub proof fn law_vec_layout<T: ReadWriteState + WriteRPC>(v: Vec<T>)
    requires
        v@.len() <= u32::MAX,
    ensures
        le_value(v.state_bytes().take(4)) == v@.len(),
        v.state_bytes().skip(4) == state_concat(v@),
        be_value(v.rpc_bytes().take(4)) == v@.len(),
        v.rpc_bytes().skip(4) == rpc_concat(v@),
{
    let n = v@.len();
    assert(n < pow256(4)) by {
        reveal_with_fuel(pow256, 5);
    }
    lemma_le_roundtrip(n, 4);
    lemma_be_roundtrip(n, 4);
    assert(v.state_bytes().take(4) =~= le_bytes(n, 4));
    assert(v.state_bytes().skip(4) =~= state_concat(v@));
    assert(v.rpc_bytes().take(4) =~= be_bytes(n, 4));
    assert(v.rpc_bytes().skip(4) =~= rpc_concat(v@));
}

} // verus!
