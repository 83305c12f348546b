# pbc_sdk

A verified library for writing contracts for the Partisia blockchain: the
binary formats that contracts read and write (State, RPC, ABI), the contract
context and result buffer, event groups, shortnames, sorted-vector maps and
sets, AVL trees kept by the host, and the test support for zero-knowledge
computations (secret-shared integers and their inputs).

Every function in `src/` is proved by Verus against its contract. The
contracts speak of mathematical models: a serialized value is a `Seq<u8>`, a
map is a `Map`, an AVL tree is the host store's `Map<i32, Map<Seq<u8>, Seq<u8>>>`.
Each serializable type states what its bytes are, what reading gives back,
and proves that reading its own bytes gives the value again.

## Layout

- `src/traits/`: the `ReadWriteState`, `ReadRPC` and `WriteRPC` traits and
  their implementations for integers, `bool`, `Option`, `String`, vectors and
  byte arrays.
- `src/leb128.rs`, `src/shortname.rs`, `src/function_name.rs`: LEB128
  encoding, shortnames, and the shortnames derived from function names with
  SHA-256 (the `sha2` crate, behind one trusted wrapper).
- `src/address.rs`, `src/primitives.rs`: addresses, hashes, keys, signatures,
  `U256`.
- `src/sorted_vec_map/`: `SortedVecMap`, `SortedVecSet`, `SortedVec`.
- `src/wasm_avl.rs`, `src/avl_tree_map.rs`: the host's AVL trees as an
  explicit store, and the typed `AvlTreeMap` over it.
- `src/events.rs`, `src/context.rs`, `src/result_buffer.rs`, `src/abi.rs`:
  event groups and their builders, contract contexts, the result buffer, and
  ABI serialization.
- `src/zk/`, `src/zk_api.rs`, `src/sbi.rs`: zero-knowledge state and state
  changes, EVM event subscriptions, secret-shared integers, and the secret
  inputs and outputs of a computation as an explicit environment.
- `app/`: keeps one AVL store and one secret environment per thread and offers
  the host functions over them, checking each argument first.
- `tests/`: the scenario tests.
