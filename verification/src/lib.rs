//! Partisia Blockchain contract SDK: the data types, collections and binary
//! formats that smart contracts use, with their behaviour stated and proved.
use vstd::prelude::*;

pub mod abi;
pub mod address;
pub mod avl_tree_map;
pub mod context;
pub mod events;
pub mod function_name;
pub mod key_order;
pub mod leb128;
pub mod primitives;
pub mod result_buffer;
pub mod sbi;
pub mod shortname;
pub mod sorted_vec_map;
pub mod traits;
pub mod wasm_avl;
pub mod zk;
pub mod zk_api;

pub use function_name::{FunctionKind, FunctionName};
pub use result_buffer::ContractResultBuffer;
pub use primitives::{
    fn_init_shortname, BlsPublicKey, BlsSignature, PublicKey, Signature, U256,
};

verus! {

} // verus!
