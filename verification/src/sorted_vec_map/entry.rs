//! Contains [`Entry`] struct for [`super::SortedVecMap`].
use vstd::prelude::*;

use crate::traits::{ReadWriteState, StateCanonical};

verus! {

/// Container for a key-value pair.
///
/// ### Fields:
/// * `key`: `K`, the key of the entry.
///
/// * `value`: `V`, the value of the entry.
#[derive(PartialEq, Debug, Clone, Eq)]
pub struct Entry<K, V> {
    /// The key of the entry.
    pub key: K,
    /// The value of the entry.
    pub value: V,
}

impl<K, V> Entry<K, V> {
    /// The key and the value.
    pub open spec fn pair(self) -> (K, V) {
        (self.key, self.value)
    }

    pub(crate) fn into_tuple(self) -> (res: (K, V))
        ensures
            res == self.pair(),
    {
        (self.key, self.value)
    }

    pub(crate) fn tuple(&self) -> (res: (&K, &V))
        ensures
            (*res.0, *res.1) == self.pair(),
    {
        (&self.key, &self.value)
    }
}

impl<K: DeepView, V: DeepView> DeepView for Entry<K, V> {
    type V = (K::V, V::V);

    open spec fn deep_view(&self) -> (K::V, V::V) {
        (self.key.deep_view(), self.value.deep_view())
    }
}

impl<K: ReadWriteState, V: ReadWriteState> ReadWriteState for Entry<K, V> {
    open spec fn state_bytes(&self) -> Seq<u8> {
        self.key.state_bytes() + self.value.state_bytes()
    }

    open spec fn state_representable(&self) -> bool {
        self.key.state_representable() && self.value.state_representable()
    }

    open spec fn state_parse(data: Seq<u8>) -> Option<((K::V, V::V), nat)> {
        match K::state_parse(data) {
            None => None,
            Some((k, n)) => match V::state_parse(data.skip(n as int)) {
                None => None,
                Some((v, m)) => Some(((k, v), n + m)),
            },
        }
    }

    fn state_read_from(reader: &mut &[u8]) -> (res: Self) {
        let ghost data = reader@;
        let key = K::state_read_from(reader);
        let ghost n = K::state_parse(data)->Some_0.1;
        let value = V::state_read_from(reader);
        let ghost m = V::state_parse(data.skip(n as int))->Some_0.1;
        assert(data.skip(n as int).skip(m as int) =~= data.skip((n + m) as int));
        Entry { key, value }
    }

    fn state_write_to(&self, writer: &mut Vec<u8>) {
        self.key.state_write_to(writer);
        self.value.state_write_to(writer);
        assert(writer@ =~= old(writer)@ + (self.key.state_bytes() + self.value.state_bytes()));
    }

    proof fn lemma_state_roundtrip(&self, rest: Seq<u8>) {
        let kb = self.key.state_bytes();
        let vb = self.value.state_bytes();
        assert(kb + vb + rest =~= kb + (vb + rest));
        self.key.lemma_state_roundtrip(vb + rest);
        assert((kb + (vb + rest)).skip(kb.len() as int) =~= vb + rest);
        self.value.lemma_state_roundtrip(rest);
    }
}

impl<K: StateCanonical, V: StateCanonical> StateCanonical for Entry<K, V> {
    open spec fn view_state_bytes(v: (K::V, V::V)) -> Seq<u8> {
        K::view_state_bytes(v.0) + V::view_state_bytes(v.1)
    }

    proof fn lemma_bytes_follow_view(&self) {
        self.key.lemma_bytes_follow_view();
        self.value.lemma_bytes_follow_view();
    }

    proof fn lemma_read_bytes_are_canonical(data: Seq<u8>) {
        K::lemma_read_bytes_are_canonical(data);
        if K::state_parse(data) is Some {
            let n = K::state_parse(data)->Some_0.1;
            V::lemma_read_bytes_are_canonical(data.skip(n as int));
            if V::state_parse(data.skip(n as int)) is Some {
                let m = V::state_parse(data.skip(n as int))->Some_0.1;
                assert(data.take((n + m) as int) =~= data.take(n as int) + data.skip(n as int).take(
                    m as int,
                ));
            }
        }
    }
}

} // verus!
