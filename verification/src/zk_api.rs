//! The environment of a zero-knowledge computation run outside the chain: the
//! secret inputs it reads, and the outputs it saves.
//!
//! The environment is an explicit value that the caller hands to each
//! operation.
use vstd::prelude::*;

use crate::key_order::OrderedKey;
use crate::sorted_vec_map::SortedVecMap;
use crate::traits::ReadWriteState;
use crate::zk::SecretVarId;

verus! {

/// A secret variable and its id.
pub struct SecretVarWithId {
    /// The id.
    pub id: SecretVarId,
    /// The value, in its secret format.
    pub value: Vec<u8>,
    /// The metadata, in the State format.
    pub metadata: Vec<u8>,
}

/// A secret variable: its value and metadata.
#[derive(Clone)]
pub struct SecretVar {
    /// The value, in its secret format.
    pub value: Vec<u8>,
    /// The metadata, in the State format.
    pub metadata: Vec<u8>,
}

/// A secret input of a given type, with metadata of a given type.
pub struct SecretVarInput<ValueT, MetadataT> {
    /// The value.
    pub value: ValueT,
    /// The metadata.
    pub metadata: MetadataT,
}

/// The bytes of a secret variable: its value, then its metadata.
pub type SecretVarView = (Seq<u8>, Seq<u8>);

/// The environment of a computation: the secret inputs, by raw id, where they
/// have been set, and the saved outputs.
pub struct SecretEnv {
    inputs: Option<SortedVecMap<u32, SecretVar>>,
    outputs: Vec<SecretVar>,
}

/// The bytes of a secret variable.
pub open spec fn secret_var_view(v: SecretVar) -> SecretVarView {
    (v.value@, v.metadata@)
}

impl View for SecretEnv {
    type V = (Option<Map<u32, SecretVarView>>, Seq<SecretVarView>);

    closed spec fn view(&self) -> (Option<Map<u32, SecretVarView>>, Seq<SecretVarView>) {
        (
            match self.inputs {
                None => None,
                Some(m) => Some(m.map().map_values(|v: SecretVar| secret_var_view(v))),
            },
            self.outputs@.map_values(|v: SecretVar| secret_var_view(v)),
        )
    }
}

/// The inputs that a list of variables with ids gives: where an id occurs more
/// than once, the last variable wins.
pub open spec fn inputs_of(vars: Seq<(u32, SecretVarView)>) -> Map<u32, SecretVarView>
    decreases vars.len(),
{
    if vars.len() == 0 {
        Map::empty()
    } else {
        inputs_of(vars.drop_last()).insert(vars.last().0, vars.last().1)
    }
}

/// The ids and bytes of variables with ids.
pub open spec fn with_ids_view(vars: Seq<SecretVarWithId>) -> Seq<(u32, SecretVarView)> {
    vars.map_values(|v: SecretVarWithId| (v.id.raw_id, (v.value@, v.metadata@)))
}

/// Variables numbered from 1 in their order.
pub open spec fn numbered_view(vars: Seq<SecretVarView>) -> Seq<(u32, SecretVarView)> {
    Seq::new(vars.len(), |i: int| ((i + 1) as u32, vars[i]))
}

impl SecretEnv {
    /// The environment's invariant: the inputs are sorted by id.
    pub closed spec fn wf(&self) -> bool {
        self.inputs matches Some(m) ==> m.wf()
    }

    /// An environment without inputs or outputs.
    pub fn new() -> (res: Self)
        ensures
            res.wf(),
            res@.0 is None,
            res@.1 == Seq::<SecretVarView>::empty(),
    {
        let res = SecretEnv { inputs: None, outputs: Vec::new() };
        assert(res@.1 =~= Seq::<SecretVarView>::empty());
        res
    }

    /// Whether the inputs are set and hold a variable of the given id.
    pub fn has_input(&self, variable_id: SecretVarId) -> (res: bool)
        requires
            self.wf(),
        ensures
            res == (self@.0 matches Some(m) && m.contains_key(variable_id.raw_id)),
    {
        load_secret_input(self, variable_id).is_some()
    }

    /// Whether the inputs have been set.
    pub fn inputs_set(&self) -> (res: bool)
        ensures
            res == self@.0 is Some,
    {
        self.inputs.is_some()
    }
}

/// Sets the secret inputs to the given variables with ids.
pub fn set_secrets_with_ids(env: &mut SecretEnv, new_secrets: Vec<SecretVarWithId>)
    ensures
        final(env).wf(),
        final(env)@.0 == Some(inputs_of(with_ids_view(new_secrets@))),
        final(env)@.1 == old(env)@.1,
{
    let ghost s0 = with_ids_view(new_secrets@);
    let mut map: SortedVecMap<u32, SecretVar> = SortedVecMap::new();
    proof {
        crate::sorted_vec_map::lemma_empty_map(map);
        assert(map.map().map_values(|v: SecretVar| secret_var_view(v)) =~= inputs_of(
            s0.take(0),
        ));
    }
    let mut i: usize = 0;
    while i < new_secrets.len()
        invariant
            i <= new_secrets@.len(),
            s0 == with_ids_view(new_secrets@),
            map.wf(),
            map.map().map_values(|v: SecretVar| secret_var_view(v)) == inputs_of(
                s0.take(i as int),
            ),
        decreases new_secrets@.len() - i,
    {
        let var = &new_secrets[i];
        let secret = SecretVar { value: clone_bytes(&var.value), metadata: clone_bytes(&var.metadata) };
        let ghost m0 = map.map();
        map.insert(var.id.raw_id, secret);
        proof {
            assert(s0.take(i + 1).drop_last() =~= s0.take(i as int));
            assert(map.map().map_values(|v: SecretVar| secret_var_view(v)) =~= inputs_of(
                s0.take(i + 1),
            ));
        }
        i = i + 1;
    }
    assert(s0.take(new_secrets@.len() as int) =~= s0);
    env.inputs = Some(map);
}

/// A copy of bytes.
fn clone_bytes(v: &Vec<u8>) -> (res: Vec<u8>)
    ensures
        res@ == v@,
{
    let mut res: Vec<u8> = Vec::new();
    crate::traits::write_bytes(&mut res, v.as_slice());
    assert(res@ =~= v@);
    res
}

/// Sets the secret inputs to the given variables, numbered from 1.
pub fn set_secrets(env: &mut SecretEnv, new_secrets: Vec<SecretVar>)
    requires
        new_secrets@.len() < u32::MAX,
    ensures
        final(env).wf(),
        final(env)@.0 == Some(
            inputs_of(numbered_view(new_secrets@.map_values(|v: SecretVar| secret_var_view(v)))),
        ),
        final(env)@.1 == old(env)@.1,
{
    let ghost vs = new_secrets@.map_values(|v: SecretVar| secret_var_view(v));
    let mut with_ids: Vec<SecretVarWithId> = Vec::new();
    let mut i: usize = 0;
    while i < new_secrets.len()
        invariant
            i <= new_secrets@.len(),
            new_secrets@.len() < u32::MAX,
            vs == new_secrets@.map_values(|v: SecretVar| secret_var_view(v)),
            with_ids_view(with_ids@) == numbered_view(vs).take(i as int),
        decreases new_secrets@.len() - i,
    {
        let var = &new_secrets[i];
        let ghost before = with_ids@;
        let id = SecretVarId::new((i as u32) + 1);
        let value = clone_bytes(&var.value);
        let metadata = clone_bytes(&var.metadata);
        let item = SecretVarWithId { id, value, metadata };
        assert(vs[i as int] == secret_var_view(new_secrets@[i as int]));
        with_ids.push(item);
        assert(with_ids@ == before.push(item));
        assert(with_ids_view(before.push(item)) =~= with_ids_view(before).push(
            (item.id.raw_id, (item.value@, item.metadata@)),
        ));
        assert(numbered_view(vs).take(i + 1) =~= numbered_view(vs).take(i as int).push(
            numbered_view(vs)[i as int],
        ));
        assert(with_ids_view(with_ids@) =~= numbered_view(vs).take(i + 1));
        i = i + 1;
    }
    assert(numbered_view(vs).take(new_secrets@.len() as int) =~= numbered_view(vs));
    set_secrets_with_ids(env, with_ids);
}

/// The State bytes of a value.
fn state_bytes_of<T: ReadWriteState>(value: &T) -> (res: Vec<u8>)
    ensures
        res@ == value.state_bytes(),
{
    let mut res: Vec<u8> = Vec::new();
    value.state_write_to(&mut res);
    assert(res@ =~= value.state_bytes());
    res
}

/// Sets the secret inputs to the given values and metadata, numbered from 1;
/// both are written in the State format.
pub fn set_secrets_of_single_type<ValueT: ReadWriteState, MetadataT: ReadWriteState>(
    env: &mut SecretEnv,
    new_secrets: Vec<SecretVarInput<ValueT, MetadataT>>,
)
    requires
        new_secrets@.len() < u32::MAX,
    ensures
        final(env).wf(),
        final(env)@.0 == Some(
            inputs_of(
                numbered_view(
                    new_secrets@.map_values(
                        |v: SecretVarInput<ValueT, MetadataT>|
                            (v.value.state_bytes(), v.metadata.state_bytes()),
                    ),
                ),
            ),
        ),
        final(env)@.1 == old(env)@.1,
{
    let ghost vs = new_secrets@.map_values(
        |v: SecretVarInput<ValueT, MetadataT>| (v.value.state_bytes(), v.metadata.state_bytes()),
    );
    let mut vars: Vec<SecretVar> = Vec::new();
    let mut i: usize = 0;
    while i < new_secrets.len()
        invariant
            i <= new_secrets@.len(),
            vs == new_secrets@.map_values(
                |v: SecretVarInput<ValueT, MetadataT>|
                    (v.value.state_bytes(), v.metadata.state_bytes()),
            ),
            vars@.map_values(|v: SecretVar| secret_var_view(v)) == vs.take(i as int),
        decreases new_secrets@.len() - i,
    {
        let input = &new_secrets[i];
        let ghost before = vars@;
        let value = state_bytes_of(&input.value);
        let metadata = state_bytes_of(&input.metadata);
        let item = SecretVar { value, metadata };
        assert(vs[i as int] == (new_secrets@[i as int].value.state_bytes(), new_secrets@[i as int].metadata.state_bytes()));
        vars.push(item);
        assert(vars@ == before.push(item));
        assert(before.push(item).map_values(|v: SecretVar| secret_var_view(v)) =~= before.map_values(
            |v: SecretVar| secret_var_view(v),
        ).push(secret_var_view(item)));
        assert(vs.take(i + 1) =~= vs.take(i as int).push(vs[i as int]));
        assert(vars@.map_values(|v: SecretVar| secret_var_view(v)) =~= vs.take(i + 1));
        i = i + 1;
    }
    assert(vs.take(new_secrets@.len() as int) =~= vs);
    set_secrets(env, vars);
}

/// The ids of the secret inputs, in increasing order. The inputs must have been
/// set.
pub fn secret_variable_ids(env: &SecretEnv) -> (res: Vec<SecretVarId>)
    requires
        env.wf(),
        env@.0 is Some,
    ensures
        forall|i: int| 0 <= i < res@.len() ==> env@.0->Some_0.contains_key(#[trigger] res@[i].raw_id),
        forall|k: u32| env@.0->Some_0.contains_key(k) ==> exists|i: int|
            0 <= i < res@.len() && #[trigger] res@[i].raw_id == k,
        forall|i: int, j: int| 0 <= i < j < res@.len() ==> res@[i].raw_id < res@[j].raw_id,
        res@.len() == env@.0->Some_0.dom().len(),
{
    match &env.inputs {
        None => Vec::new(),
        Some(map) => {
            let keys = map.keys();
            let mut res: Vec<SecretVarId> = Vec::new();
            let mut i: usize = 0;
            proof {
                crate::sorted_vec_map::law_map_len_is_key_count(*map);
            }
            while i < keys.len()
                invariant
                    i <= keys@.len(),
                    map.wf(),
                    keys@.map_values(|k: &u32| *k) == map@.map_values(|p: (u32, SecretVar)| p.0),
                    res@.len() == i,
                    forall|j: int| 0 <= j < i ==> (#[trigger] res@[j]).raw_id == *keys@[j],
                decreases keys@.len() - i,
            {
                res.push(SecretVarId::new(*keys[i]));
                i = i + 1;
            }
            proof {
                assert(keys@.map_values(|k: &u32| *k).len() == keys@.len());
                assert(map@.map_values(|p: (u32, SecretVar)| p.0).len() == map@.len());
                assert(keys@.len() == map@.len());
                assert forall|a: int| 0 <= a < res@.len() implies env@.0->Some_0.contains_key(
                    #[trigger] res@[a].raw_id,
                ) by {
                    assert(*keys@[a] == keys@.map_values(|k: &u32| *k)[a]);
                    crate::sorted_vec_map::map::lemma_pairs_map_at(map@, a);
                }
                assert forall|k: u32| env@.0->Some_0.contains_key(k) implies exists|a: int|
                    0 <= a < res@.len() && #[trigger] res@[a].raw_id == k by {
                    let a = choose|a: int| 0 <= a < map@.len() && map@[a].0@ == k;
                    assert(*keys@[a] == keys@.map_values(|k: &u32| *k)[a]);
                    assert(res@[a].raw_id == k);
                }
                assert forall|a: int, b: int| 0 <= a < b < res@.len() implies res@[a].raw_id
                    < res@[b].raw_id by {
                    assert(*keys@[a] == keys@.map_values(|k: &u32| *k)[a]);
                    assert(*keys@[b] == keys@.map_values(|k: &u32| *k)[b]);
                    assert(crate::sorted_vec_map::map::sorted_by_key(map@));
                    assert(a < map@.len() && b < map@.len());
                    crate::sorted_vec_map::map::lemma_sorted_lt(map@, a, b);
                }
                assert(env@.0->Some_0.dom() =~= map.map().dom());
            }
            res
        },
    }
}

/// The number of secret inputs. The inputs must have been set.
pub fn num_secret_variables(env: &SecretEnv) -> (res: usize)
    requires
        env.wf(),
        env@.0 is Some,
    ensures
        res == env@.0->Some_0.dom().len(),
{
    secret_variable_ids(env).len()
}

/// The secret input of the given id, if the inputs are set and hold it.
fn load_secret_input(env: &SecretEnv, variable_id: SecretVarId) -> (res: Option<&SecretVar>)
    requires
        env.wf(),
    ensures
        match res {
            Some(v) => env@.0 matches Some(m) && m.contains_key(variable_id.raw_id)
                && secret_var_view(*v) == m[variable_id.raw_id],
            None => !(env@.0 matches Some(m) && m.contains_key(variable_id.raw_id)),
        },
{
    match &env.inputs {
        None => None,
        Some(map) => map.get(&variable_id.raw_id),
    }
}

/// Reads the value of a secret input. The input must be there, and its value
/// must read as a `T`.
pub fn load_sbi<T: ReadWriteState>(env: &SecretEnv, variable_id: SecretVarId) -> (res: T)
    requires
        env.wf(),
        env@.0 matches Some(m) && m.contains_key(variable_id.raw_id) && T::state_parse(
            m[variable_id.raw_id].0,
        ) is Some,
    ensures
        res.deep_view() == T::state_parse(env@.0->Some_0[variable_id.raw_id].0)->Some_0.0,
{
    let var = load_secret_input(env, variable_id).unwrap();
    let mut buff = var.value.as_slice();
    T::state_read_from(&mut buff)
}

/// Reads the metadata of a secret input. The input must be there, and its
/// metadata must read as a `T`.
pub fn load_metadata<T: ReadWriteState>(env: &SecretEnv, variable_id: SecretVarId) -> (res: T)
    requires
        env.wf(),
        env@.0 matches Some(m) && m.contains_key(variable_id.raw_id) && T::state_parse(
            m[variable_id.raw_id].1,
        ) is Some,
    ensures
        res.deep_view() == T::state_parse(env@.0->Some_0[variable_id.raw_id].1)->Some_0.0,
{
    let var = load_secret_input(env, variable_id).unwrap();
    let mut buff = var.metadata.as_slice();
    T::state_read_from(&mut buff)
}

/// Saves an output of the computation: its value, without metadata.
pub fn save_sbi<T: ReadWriteState>(env: &mut SecretEnv, var: T)
    requires
        old(env).wf(),
    ensures
        final(env).wf(),
        final(env)@.0 == old(env)@.0,
        final(env)@.1 == old(env)@.1.push((var.state_bytes(), Seq::<u8>::empty())),
{
    let buff = state_bytes_of(&var);
    env.outputs.push(SecretVar { value: buff, metadata: Vec::new() });
    assert(env@.1 =~= old(env)@.1.push((var.state_bytes(), Seq::<u8>::empty())));
}

/// The saved outputs, in the order they were saved.
pub fn get_secret_outputs(env: &SecretEnv) -> (res: Vec<SecretVar>)
    ensures
        res@.map_values(|v: SecretVar| secret_var_view(v)) == env@.1,
{
    let mut res: Vec<SecretVar> = Vec::new();
    let mut i: usize = 0;
    while i < env.outputs.len()
        invariant
            i <= env.outputs@.len(),
            res@.map_values(|v: SecretVar| secret_var_view(v)) == env.outputs@.take(
                i as int,
            ).map_values(|v: SecretVar| secret_var_view(v)),
        decreases env.outputs@.len() - i,
    {
        let v = &env.outputs[i];
        let ghost before = res@;
        let value = clone_bytes(&v.value);
        let metadata = clone_bytes(&v.metadata);
        let item = SecretVar { value, metadata };
        res.push(item);
        assert(res@ == before.push(item));
        assert(env.outputs@.take(i + 1) =~= env.outputs@.take(i as int).push(*v));
        assert(before.push(item).map_values(|v: SecretVar| secret_var_view(v)) =~= before.map_values(
            |v: SecretVar| secret_var_view(v),
        ).push(secret_var_view(item)));
        assert(env.outputs@.take(i as int).push(*v).map_values(|v: SecretVar| secret_var_view(v))
            =~= env.outputs@.take(i as int).map_values(|v: SecretVar| secret_var_view(v)).push(
            secret_var_view(*v),
        ));
        assert(res@.map_values(|v: SecretVar| secret_var_view(v)) =~= env.outputs@.take(
            i + 1,
        ).map_values(|v: SecretVar| secret_var_view(v)));
        i = i + 1;
    }
    assert(env.outputs@.take(env.outputs@.len() as int) =~= env.outputs@);
    res
}

} // verus!
