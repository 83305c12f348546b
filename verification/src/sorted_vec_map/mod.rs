//! Definition of sorted [`Vec`]-based [`SortedVecMap`], [`SortedVecSet`] and
//! [`SortedVec`].
//!
//! They provide amortized `O(n)` insert and `O(log(n))` lookup.
pub mod entry;
pub mod map;
pub mod set;
pub mod vec;

pub use map::{
    lemma_empty_map, lemma_first_is_least, lemma_last_is_greatest, law_map_len_is_key_count,
    SortedVecMap,
};
pub use set::SortedVecSet;
pub use vec::SortedVec;
