//! Keys with a total order, by which the sorted collections keep their entries.
use vstd::prelude::*;

verus! {

/// The outcome of comparing two keys.
#[derive(PartialEq, Eq, Structural, Debug, Clone, Copy)]
pub enum KeyOrder {
    Less,
    Equal,
    Greater,
}

/// Keys that the sorted collections can hold: a strict total order on the keys'
/// views, and an executable comparison that follows it.
pub trait OrderedKey: View + Sized {
    /// The strict order on views of keys.
    spec fn lt_view(a: Self::V, b: Self::V) -> bool;

    /// `lt_view` is irreflexive, transitive and total.
    proof fn lemma_order(a: Self::V, b: Self::V, c: Self::V)
        ensures
            !Self::lt_view(a, a),
            Self::lt_view(a, b) && Self::lt_view(b, c) ==> Self::lt_view(a, c),
            Self::lt_view(a, b) || a == b || Self::lt_view(b, a),
    ;

    /// Compares two keys.
    fn compare_keys(&self, other: &Self) -> (res: KeyOrder)
        ensures
            (res == KeyOrder::Less) == Self::lt_view(self@, other@),
            (res == KeyOrder::Equal) == (self@ == other@),
            (res == KeyOrder::Greater) == Self::lt_view(other@, self@),
    ;
}

/// One end of a range of keys.
#[derive(Debug)]
pub enum KeyBound<K> {
    /// The range includes this key.
    Included(K),
    /// The range excludes this key.
    Excluded(K),
    /// The range is open at this end.
    Unbounded,
}

/// `k` lies at or after the start `start` of a range.
pub open spec fn after_start<K: OrderedKey>(start: KeyBound<K>, k: K::V) -> bool {
    match start {
        KeyBound::Included(s) => !K::lt_view(k, s@),
        KeyBound::Excluded(s) => K::lt_view(s@, k),
        KeyBound::Unbounded => true,
    }
}

/// `k` lies at or before the end `end` of a range.
pub open spec fn before_end<K: OrderedKey>(end: KeyBound<K>, k: K::V) -> bool {
    match end {
        KeyBound::Included(e) => !K::lt_view(e@, k),
        KeyBound::Excluded(e) => K::lt_view(k, e@),
        KeyBound::Unbounded => true,
    }
}

/// Whether `k` lies in the range from `start` to `end`.
pub fn in_range<K: OrderedKey>(start: &KeyBound<K>, end: &KeyBound<K>, k: &K) -> (res: bool)
    ensures
        res == (after_start(*start, k@) && before_end(*end, k@)),
{
    let above = match start {
        KeyBound::Included(s) => match k.compare_keys(s) {
            KeyOrder::Less => false,
            _ => true,
        },
        KeyBound::Excluded(s) => match s.compare_keys(k) {
            KeyOrder::Less => true,
            _ => false,
        },
        KeyBound::Unbounded => true,
    };
    let below = match end {
        KeyBound::Included(e) => match e.compare_keys(k) {
            KeyOrder::Less => false,
            _ => true,
        },
        KeyBound::Excluded(e) => match k.compare_keys(e) {
            KeyOrder::Less => true,
            _ => false,
        },
        KeyBound::Unbounded => true,
    };
    above && below
}

/// Lexicographic order on byte sequences; a proper prefix comes first.
pub open spec fn seq_lex_lt(s: Seq<u8>, t: Seq<u8>) -> bool
    decreases s.len(),
{
    if s.len() == 0 {
        t.len() > 0
    } else if t.len() == 0 {
        false
    } else if s[0] != t[0] {
        s[0] < t[0]
    } else {
        seq_lex_lt(s.drop_first(), t.drop_first())
    }
}

/// `seq_lex_lt` is a strict total order.
pub proof fn lemma_seq_lex_order(a: Seq<u8>, b: Seq<u8>, c: Seq<u8>)
    ensures
        !seq_lex_lt(a, a),
        seq_lex_lt(a, b) && seq_lex_lt(b, c) ==> seq_lex_lt(a, c),
        seq_lex_lt(a, b) || a == b || seq_lex_lt(b, a),
    decreases a.len(),
{
    if a.len() > 0 && b.len() > 0 && c.len() > 0 {
        lemma_seq_lex_order(a.drop_first(), b.drop_first(), c.drop_first());
    }
    if a.len() > 0 {
        lemma_seq_lex_order(a.drop_first(), a.drop_first(), a.drop_first());
    }
    if a.len() > 0 && b.len() > 0 {
        lemma_seq_lex_order(a.drop_first(), b.drop_first(), b.drop_first());
        if a[0] == b[0] && a.drop_first() == b.drop_first() {
            assert(a =~= seq![a[0]] + a.drop_first());
            assert(b =~= seq![b[0]] + b.drop_first());
        }
    }
    if a.len() == 0 && b.len() == 0 {
        assert(a =~= b);
    }
}

/// Compares two byte sequences lexicographically.
pub fn compare_byte_slices(s: &[u8], t: &[u8]) -> (res: KeyOrder)
    ensures
        (res == KeyOrder::Less) == seq_lex_lt(s@, t@),
        (res == KeyOrder::Equal) == (s@ == t@),
        (res == KeyOrder::Greater) == seq_lex_lt(t@, s@),
{
    proof {
        lemma_seq_lex_order(s@, t@, s@);
        lemma_seq_lex_order(t@, s@, t@);
        assert(s@.skip(0) =~= s@);
        assert(t@.skip(0) =~= t@);
    }
    let mut i: usize = 0;
    while i < s.len() && i < t.len()
        invariant
            i <= s@.len(),
            i <= t@.len(),
            s@.take(i as int) == t@.take(i as int),
            seq_lex_lt(s@, t@) == seq_lex_lt(s@.skip(i as int), t@.skip(i as int)),
            seq_lex_lt(t@, s@) == seq_lex_lt(t@.skip(i as int), s@.skip(i as int)),
        decreases s@.len() - i,
    {
        let a = s[i];
        let b = t[i];
        assert(s@.skip(i as int)[0] == a);
        assert(t@.skip(i as int)[0] == b);
        if a != b {
            proof {
                if s@ == t@ {
                    assert(s@[i as int] == t@[i as int]);
                }
            }
            if a < b {
                return KeyOrder::Less;
            } else {
                return KeyOrder::Greater;
            }
        }
        assert(s@.skip(i as int).drop_first() =~= s@.skip(i + 1));
        assert(t@.skip(i as int).drop_first() =~= t@.skip(i + 1));
        assert(s@.take(i + 1) =~= s@.take(i as int).push(a));
        assert(t@.take(i + 1) =~= t@.take(i as int).push(b));
        i = i + 1;
    }
    if i < t.len() {
        assert(s@.skip(i as int).len() == 0);
        assert(s@ != t@);
        KeyOrder::Less
    } else if i < s.len() {
        assert(t@.skip(i as int).len() == 0);
        assert(s@ != t@);
        KeyOrder::Greater
    } else {
        assert(s@ =~= s@.take(i as int));
        assert(t@ =~= t@.take(i as int));
        KeyOrder::Equal
    }
}

impl OrderedKey for Vec<u8> {
    open spec fn lt_view(a: Seq<u8>, b: Seq<u8>) -> bool {
        seq_lex_lt(a, b)
    }

    proof fn lemma_order(a: Seq<u8>, b: Seq<u8>, c: Seq<u8>) {
        lemma_seq_lex_order(a, b, c);
    }

    fn compare_keys(&self, other: &Self) -> (res: KeyOrder) {
        compare_byte_slices(self.as_slice(), other.as_slice())
    }
}

impl OrderedKey for u8 {
    open spec fn lt_view(a: u8, b: u8) -> bool {
        a < b
    }

    proof fn lemma_order(a: u8, b: u8, c: u8) {
    }

    fn compare_keys(&self, other: &Self) -> (res: KeyOrder) {
        if *self < *other {
            KeyOrder::Less
        } else if *self == *other {
            KeyOrder::Equal
        } else {
            KeyOrder::Greater
        }
    }
}

impl OrderedKey for i8 {
    open spec fn lt_view(a: i8, b: i8) -> bool {
        a < b
    }

    proof fn lemma_order(a: i8, b: i8, c: i8) {
    }

    fn compare_keys(&self, other: &Self) -> (res: KeyOrder) {
        if *self < *other {
            KeyOrder::Less
        } else if *self == *other {
            KeyOrder::Equal
        } else {
            KeyOrder::Greater
        }
    }
}

impl OrderedKey for u16 {
    open spec fn lt_view(a: u16, b: u16) -> bool {
        a < b
    }

    proof fn lemma_order(a: u16, b: u16, c: u16) {
    }

    fn compare_keys(&self, other: &Self) -> (res: KeyOrder) {
        if *self < *other {
            KeyOrder::Less
        } else if *self == *other {
            KeyOrder::Equal
        } else {
            KeyOrder::Greater
        }
    }
}

impl OrderedKey for u32 {
    open spec fn lt_view(a: u32, b: u32) -> bool {
        a < b
    }

    proof fn lemma_order(a: u32, b: u32, c: u32) {
    }

    fn compare_keys(&self, other: &Self) -> (res: KeyOrder) {
        if *self < *other {
            KeyOrder::Less
        } else if *self == *other {
            KeyOrder::Equal
        } else {
            KeyOrder::Greater
        }
    }
}

impl OrderedKey for u64 {
    open spec fn lt_view(a: u64, b: u64) -> bool {
        a < b
    }

    proof fn lemma_order(a: u64, b: u64, c: u64) {
    }

    fn compare_keys(&self, other: &Self) -> (res: KeyOrder) {
        if *self < *other {
            KeyOrder::Less
        } else if *self == *other {
            KeyOrder::Equal
        } else {
            KeyOrder::Greater
        }
    }
}

impl OrderedKey for u128 {
    open spec fn lt_view(a: u128, b: u128) -> bool {
        a < b
    }

    proof fn lemma_order(a: u128, b: u128, c: u128) {
    }

    fn compare_keys(&self, other: &Self) -> (res: KeyOrder) {
        if *self < *other {
            KeyOrder::Less
        } else if *self == *other {
            KeyOrder::Equal
        } else {
            KeyOrder::Greater
        }
    }
}

impl OrderedKey for i16 {
    open spec fn lt_view(a: i16, b: i16) -> bool {
        a < b
    }

    proof fn lemma_order(a: i16, b: i16, c: i16) {
    }

    fn compare_keys(&self, other: &Self) -> (res: KeyOrder) {
        if *self < *other {
            KeyOrder::Less
        } else if *self == *other {
            KeyOrder::Equal
        } else {
            KeyOrder::Greater
        }
    }
}

impl OrderedKey for i32 {
    open spec fn lt_view(a: i32, b: i32) -> bool {
        a < b
    }

    proof fn lemma_order(a: i32, b: i32, c: i32) {
    }

    fn compare_keys(&self, other: &Self) -> (res: KeyOrder) {
        if *self < *other {
            KeyOrder::Less
        } else if *self == *other {
            KeyOrder::Equal
        } else {
            KeyOrder::Greater
        }
    }
}

impl OrderedKey for i64 {
    open spec fn lt_view(a: i64, b: i64) -> bool {
        a < b
    }

    proof fn lemma_order(a: i64, b: i64, c: i64) {
    }

    fn compare_keys(&self, other: &Self) -> (res: KeyOrder) {
        if *self < *other {
            KeyOrder::Less
        } else if *self == *other {
            KeyOrder::Equal
        } else {
            KeyOrder::Greater
        }
    }
}

impl OrderedKey for i128 {
    open spec fn lt_view(a: i128, b: i128) -> bool {
        a < b
    }

    proof fn lemma_order(a: i128, b: i128, c: i128) {
    }

    fn compare_keys(&self, other: &Self) -> (res: KeyOrder) {
        if *self < *other {
            KeyOrder::Less
        } else if *self == *other {
            KeyOrder::Equal
        } else {
            KeyOrder::Greater
        }
    }
}

/// Keys of type `u8` are kept in increasing numeric order: one key comes
/// before another exactly when it is the smaller number.
pub proof fn law_u8_keys_in_numeric_order(a: u8, b: u8)
    ensures
        <u8 as OrderedKey>::lt_view(a, b) <==> a < b,
        !<u8 as OrderedKey>::lt_view(a, b) && !<u8 as OrderedKey>::lt_view(b, a) <==> a == b,
{
}

/// Keys of type `u16` are kept in increasing numeric order: one key comes
/// before another exactly when it is the smaller number.
pub proof fn law_u16_keys_in_numeric_order(a: u16, b: u16)
    ensures
        <u16 as OrderedKey>::lt_view(a, b) <==> a < b,
        !<u16 as OrderedKey>::lt_view(a, b) && !<u16 as OrderedKey>::lt_view(b, a) <==> a == b,
{
}

/// Keys of type `u32` are kept in increasing numeric order: one key comes
/// before another exactly when it is the smaller number.
pub proof fn law_u32_keys_in_numeric_order(a: u32, b: u32)
    ensures
        <u32 as OrderedKey>::lt_view(a, b) <==> a < b,
        !<u32 as OrderedKey>::lt_view(a, b) && !<u32 as OrderedKey>::lt_view(b, a) <==> a == b,
{
}

/// Keys of type `u64` are kept in increasing numeric order: one key comes
/// before another exactly when it is the smaller number.
pub proof fn law_u64_keys_in_numeric_order(a: u64, b: u64)
    ensures
        <u64 as OrderedKey>::lt_view(a, b) <==> a < b,
        !<u64 as OrderedKey>::lt_view(a, b) && !<u64 as OrderedKey>::lt_view(b, a) <==> a == b,
{
}

/// Keys of type `u128` are kept in increasing numeric order: one key comes
/// before another exactly when it is the smaller number.
pub proof fn law_u128_keys_in_numeric_order(a: u128, b: u128)
    ensures
        <u128 as OrderedKey>::lt_view(a, b) <==> a < b,
        !<u128 as OrderedKey>::lt_view(a, b) && !<u128 as OrderedKey>::lt_view(b, a) <==> a == b,
{
}

/// Keys of type `i8` are kept in increasing numeric order: one key comes
/// before another exactly when it is the smaller number.
pub proof fn law_i8_keys_in_numeric_order(a: i8, b: i8)
    ensures
        <i8 as OrderedKey>::lt_view(a, b) <==> a < b,
        !<i8 as OrderedKey>::lt_view(a, b) && !<i8 as OrderedKey>::lt_view(b, a) <==> a == b,
{
}

/// Keys of type `i16` are kept in increasing numeric order: one key comes
/// before another exactly when it is the smaller number.
pub proof fn law_i16_keys_in_numeric_order(a: i16, b: i16)
    ensures
        <i16 as OrderedKey>::lt_view(a, b) <==> a < b,
        !<i16 as OrderedKey>::lt_view(a, b) && !<i16 as OrderedKey>::lt_view(b, a) <==> a == b,
{
}

/// Keys of type `i32` are kept in increasing numeric order: one key comes
/// before another exactly when it is the smaller number.
pub proof fn law_i32_keys_in_numeric_order(a: i32, b: i32)
    ensures
        <i32 as OrderedKey>::lt_view(a, b) <==> a < b,
        !<i32 as OrderedKey>::lt_view(a, b) && !<i32 as OrderedKey>::lt_view(b, a) <==> a == b,
{
}

/// Keys of type `i64` are kept in increasing numeric order: one key comes
/// before another exactly when it is the smaller number.
pub proof fn law_i64_keys_in_numeric_order(a: i64, b: i64)
    ensures
        <i64 as OrderedKey>::lt_view(a, b) <==> a < b,
        !<i64 as OrderedKey>::lt_view(a, b) && !<i64 as OrderedKey>::lt_view(b, a) <==> a == b,
{
}

/// Keys of type `i128` are kept in increasing numeric order: one key comes
/// before another exactly when it is the smaller number.
pub proof fn law_i128_keys_in_numeric_order(a: i128, b: i128)
    ensures
        <i128 as OrderedKey>::lt_view(a, b) <==> a < b,
        !<i128 as OrderedKey>::lt_view(a, b) && !<i128 as OrderedKey>::lt_view(b, a) <==> a == b,
{
}

/// Byte-vector keys are kept in lexicographic order: the empty vector comes
/// first; otherwise the first bytes decide where they differ, and the rest
/// where they agree.
pub proof fn law_byte_vector_keys_in_lexicographic_order(a: Seq<u8>, b: Seq<u8>)
    ensures
        a.len() == 0 ==> (<Vec<u8> as OrderedKey>::lt_view(a, b) <==> b.len() > 0),
        a.len() > 0 && b.len() == 0 ==> !<Vec<u8> as OrderedKey>::lt_view(a, b),
        a.len() > 0 && b.len() > 0 && a[0] != b[0] ==> (<Vec<u8> as OrderedKey>::lt_view(a, b)
            <==> a[0] < b[0]),
        a.len() > 0 && b.len() > 0 && a[0] == b[0] ==> (<Vec<u8> as OrderedKey>::lt_view(a, b)
            <==> <Vec<u8> as OrderedKey>::lt_view(a.drop_first(), b.drop_first())),
{
}

} // verus!
