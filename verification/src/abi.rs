//! The ABI of a contract: its functions, their arguments, and its named types,
//! with the bytes they are written as.
use vstd::prelude::*;

use crate::function_name::{function_kind_byte, FunctionKind, FunctionName};
use crate::shortname::Shortname;
use crate::traits::misc::string_rpc_bytes;
use crate::traits::{be_bytes, write_bytes, write_uint_be, WriteRPC};

verus! {

/// A named entity of the ABI, such as an argument or a field: its name, and
/// the type specification of its type.
#[derive(PartialEq, Eq, Debug)]
pub struct NamedEntityAbi {
    /// The name.
    pub name: String,
    /// The type specification of the type.
    pub ty: Vec<u8>,
}

/// The bytes of a named entity: its name in the RPC format, then its type
/// specification.
pub open spec fn named_entity_bytes(e: NamedEntityAbi) -> Seq<u8> {
    string_rpc_bytes(e.name@) + e.ty@
}

/// The bytes of named entities, one after another.
pub open spec fn named_entities_bytes(s: Seq<NamedEntityAbi>) -> Seq<u8>
    decreases s.len(),
{
    if s.len() == 0 {
        Seq::empty()
    } else {
        named_entities_bytes(s.drop_last()) + named_entity_bytes(s.last())
    }
}

/// A list in the ABI: its length in 4 bytes, most significant first, then the
/// items' bytes.
pub open spec fn abi_list_bytes(len: nat, items: Seq<u8>) -> Seq<u8> {
    be_bytes((len as u32) as nat, 4) + items
}

impl NamedEntityAbi {
    /// A named entity of the given type specification.
    pub fn new(name: String, ty: Vec<u8>) -> (res: Self)
        ensures
            res.name@ == name@,
            res.ty@ == ty@,
    {
        NamedEntityAbi { name, ty }
    }

    /// Writes the name in the RPC format, then the type specification.
    pub fn serialize_abi(&self, writer: &mut Vec<u8>)
        ensures
            final(writer)@ == old(writer)@ + named_entity_bytes(*self),
    {
        self.name.rpc_write_to(writer);
        write_bytes(writer, self.ty.as_slice());
        assert(final(writer)@ =~= old(writer)@ + named_entity_bytes(*self));
    }
}

/// Writes a list of named entities: their number, then each.
fn serialize_named_entities(items: &Vec<NamedEntityAbi>, writer: &mut Vec<u8>)
    ensures
        final(writer)@ == old(writer)@ + abi_list_bytes(items@.len(), named_entities_bytes(items@)),
{
    write_uint_be(writer, (items.len() as u32) as u128, 4);
    let ghost start = writer@;
    let mut i: usize = 0;
    while i < items.len()
        invariant
            i <= items@.len(),
            writer@ == start + named_entities_bytes(items@.take(i as int)),
        decreases items@.len() - i,
    {
        items[i].serialize_abi(writer);
        assert(items@.take(i + 1).drop_last() =~= items@.take(i as int));
        assert(writer@ =~= start + named_entities_bytes(items@.take(i + 1)));
        i = i + 1;
    }
    assert(items@.take(items@.len() as int) =~= items@);
    assert(writer@ =~= old(writer)@ + abi_list_bytes(items@.len(), named_entities_bytes(items@)));
}

/// The ABI of a contract function: its name, kind, arguments and, for a
/// secret input, the secret argument.
pub struct FnAbi {
    name: FunctionName,
    fn_kind: FunctionKind,
    args: Vec<NamedEntityAbi>,
    secret_arg: Option<NamedEntityAbi>,
}

/// The view of a function's ABI: the name and its shortname, the kind, the
/// arguments and the secret argument.
pub type FnAbiView = ((Seq<char>, u32), FunctionKind, Seq<NamedEntityAbi>, Option<NamedEntityAbi>);

impl View for FnAbi {
    type V = FnAbiView;

    closed spec fn view(&self) -> FnAbiView {
        (self.name@, self.fn_kind, self.args@, self.secret_arg)
    }
}

/// The bytes of a function's ABI: its kind's byte, its name and shortname, its
/// arguments, and its secret argument where it has one.
pub open spec fn fn_abi_bytes(f: FnAbiView) -> Seq<u8> {
    seq![function_kind_byte(f.1)] + string_rpc_bytes(f.0.0) + crate::leb128::leb128_encode(
        f.0.1 as nat,
    ) + abi_list_bytes(f.2.len(), named_entities_bytes(f.2)) + match f.3 {
        None => Seq::empty(),
        Some(a) => named_entity_bytes(a),
    }
}

impl FnAbi {
    /// The ABI of a function of the given name, shortname (or the shortname
    /// derived from the name) and kind, without arguments.
    pub fn new(name: String, shortname: Option<Shortname>, fn_kind: FunctionKind) -> (res: Self)
        ensures
            res@.0.0 == name@,
            res@.0.1 == match shortname {
                Some(s) => s@,
                None => crate::function_name::name_shortname(name@),
            },
            res@.1 == fn_kind,
            res@.2 == Seq::<NamedEntityAbi>::empty(),
            res@.3 is None,
    {
        Self::from_name(FunctionName::new(name, shortname), fn_kind)
    }

    /// The ABI of a function of the given name and kind, without arguments.
    pub fn from_name(name: FunctionName, fn_kind: FunctionKind) -> (res: Self)
        ensures
            res@.0 == name@,
            res@.1 == fn_kind,
            res@.2 == Seq::<NamedEntityAbi>::empty(),
            res@.3 is None,
    {
        FnAbi { name, fn_kind, args: Vec::new(), secret_arg: None }
    }

    /// Adds an argument of the given name and type specification.
    pub fn argument(&mut self, name: String, ty: Vec<u8>)
        ensures
            final(self)@.0 == old(self)@.0,
            final(self)@.1 == old(self)@.1,
            final(self)@.2 == old(self)@.2.push((NamedEntityAbi { name, ty })),
            final(self)@.3 == old(self)@.3,
    {
        self.args.push(NamedEntityAbi { name, ty });
    }

    /// Sets the secret argument, of the given type specification. Only a
    /// function of kind `ZkSecretInputWithExplicitType` takes one.
    pub fn secret_argument(&mut self, ty: Vec<u8>)
        requires
            old(self)@.1 == FunctionKind::ZkSecretInputWithExplicitType,
        ensures
            final(self)@.0 == old(self)@.0,
            final(self)@.1 == old(self)@.1,
            final(self)@.2 == old(self)@.2,
            final(self)@.3 matches Some(a) && a.name@ == secret_input_name() && a.ty@ == ty@,
    {
        let name = String::from_str("secret_input");
        proof {
            reveal_strlit("secret_input");
        }
        self.secret_arg = Some(NamedEntityAbi::new(name, ty));
    }

    /// Sets the secret argument to a secret 32-bit integer.
    pub fn default_secret_argument(&mut self)
        requires
            old(self)@.1 == FunctionKind::ZkSecretInputWithExplicitType,
        ensures
            final(self)@.0 == old(self)@.0,
            final(self)@.1 == old(self)@.1,
            final(self)@.2 == old(self)@.2,
            final(self)@.3 matches Some(a) && a.name@ == secret_input_name() && a.ty@ == seq![
                0x08u8,
            ],
    {
        let ty: Vec<u8> = vec![0x08];
        self.secret_argument(ty);
    }

    /// Writes the function's ABI.
    pub fn serialize_abi(&self, writer: &mut Vec<u8>)
        ensures
            final(writer)@ == old(writer)@ + fn_abi_bytes(self@),
    {
        writer.push(self.fn_kind.discriminant());
        self.name.serialize_abi(writer);
        serialize_named_entities(&self.args, writer);
        match &self.secret_arg {
            None => {},
            Some(arg) => arg.serialize_abi(writer),
        }
        assert(final(writer)@ =~= old(writer)@ + fn_abi_bytes(self@));
    }
}

/// The name of the secret argument.
pub open spec fn secret_input_name() -> Seq<char> {
    seq!['s', 'e', 'c', 'r', 'e', 't', '_', 'i', 'n', 'p', 'u', 't']
}

/// A variant of an enum type of the ABI: its discriminant, and the type
/// specification of the variant's struct.
#[derive(PartialEq, Eq, Debug)]
pub struct EnumVariant {
    /// The discriminant.
    pub discriminant: u8,
    /// The type specification of the variant's struct.
    pub type_spec: Vec<u8>,
}

/// The bytes of a variant: its discriminant, then its type specification.
pub open spec fn enum_variant_bytes(v: EnumVariant) -> Seq<u8> {
    seq![v.discriminant] + v.type_spec@
}

/// The bytes of variants, one after another.
pub open spec fn enum_variants_bytes(s: Seq<EnumVariant>) -> Seq<u8>
    decreases s.len(),
{
    if s.len() == 0 {
        Seq::empty()
    } else {
        enum_variants_bytes(s.drop_last()) + enum_variant_bytes(s.last())
    }
}

impl EnumVariant {
    /// A variant of the given discriminant and type specification.
    pub fn new(discriminant: u8, type_spec: Vec<u8>) -> (res: Self)
        ensures
            res.discriminant == discriminant,
            res.type_spec@ == type_spec@,
    {
        EnumVariant { discriminant, type_spec }
    }

    /// Writes the discriminant, then the type specification.
    pub fn serialize_abi(&self, writer: &mut Vec<u8>)
        ensures
            final(writer)@ == old(writer)@ + enum_variant_bytes(*self),
    {
        writer.push(self.discriminant);
        write_bytes(writer, self.type_spec.as_slice());
        assert(final(writer)@ =~= old(writer)@ + enum_variant_bytes(*self));
    }
}

/// Writes a list of variants: their number, then each.
fn serialize_enum_variants(items: &Vec<EnumVariant>, writer: &mut Vec<u8>)
    ensures
        final(writer)@ == old(writer)@ + abi_list_bytes(items@.len(), enum_variants_bytes(items@)),
{
    write_uint_be(writer, (items.len() as u32) as u128, 4);
    let ghost start = writer@;
    let mut i: usize = 0;
    while i < items.len()
        invariant
            i <= items@.len(),
            writer@ == start + enum_variants_bytes(items@.take(i as int)),
        decreases items@.len() - i,
    {
        items[i].serialize_abi(writer);
        assert(items@.take(i + 1).drop_last() =~= items@.take(i as int));
        assert(writer@ =~= start + enum_variants_bytes(items@.take(i + 1)));
        i = i + 1;
    }
    assert(items@.take(items@.len() as int) =~= items@);
    assert(writer@ =~= old(writer)@ + abi_list_bytes(items@.len(), enum_variants_bytes(items@)));
}

/// What a named type is: a struct with fields, or an enum with variants.
#[derive(PartialEq, Eq, Debug)]
pub enum KindInfo {
    /// A struct.
    Struct {
        /// The fields.
        fields: Vec<NamedEntityAbi>,
    },
    /// An enum.
    Enum {
        /// The variants.
        variants: Vec<EnumVariant>,
    },
}

/// A named type of the ABI: its name, identifier, type specification, and its
/// fields or variants.
#[derive(PartialEq, Eq, Debug)]
pub struct NamedTypeSpec {
    /// The name.
    pub name: String,
    /// The unique identifier of the type.
    pub type_identifier: String,
    /// The type specification.
    pub type_spec: Vec<u8>,
    /// The fields or variants.
    pub kind_information: KindInfo,
}

/// The bytes of a named type: 1 and the fields for a struct, 2 and the
/// variants for an enum, with the name in between.
pub open spec fn named_type_bytes(t: NamedTypeSpec) -> Seq<u8> {
    match t.kind_information {
        KindInfo::Struct { fields } => seq![1u8] + string_rpc_bytes(t.name@) + abi_list_bytes(
            fields@.len(),
            named_entities_bytes(fields@),
        ),
        KindInfo::Enum { variants } => seq![2u8] + string_rpc_bytes(t.name@) + abi_list_bytes(
            variants@.len(),
            enum_variants_bytes(variants@),
        ),
    }
}

impl NamedTypeSpec {
    /// A struct type without fields.
    pub fn new_struct(name: String, type_identifier: String, type_spec: Vec<u8>) -> (res: Self)
        ensures
            res.name@ == name@,
            res.type_identifier@ == type_identifier@,
            res.type_spec@ == type_spec@,
            res.kind_information matches KindInfo::Struct { fields } && fields@.len() == 0,
    {
        NamedTypeSpec {
            name,
            type_identifier,
            type_spec,
            kind_information: KindInfo::Struct { fields: Vec::new() },
        }
    }

    /// An enum type without variants.
    pub fn new_enum(name: String, type_identifier: String, type_spec: Vec<u8>) -> (res: Self)
        ensures
            res.name@ == name@,
            res.type_identifier@ == type_identifier@,
            res.type_spec@ == type_spec@,
            res.kind_information matches KindInfo::Enum { variants } && variants@.len() == 0,
    {
        NamedTypeSpec {
            name,
            type_identifier,
            type_spec,
            kind_information: KindInfo::Enum { variants: Vec::new() },
        }
    }

    /// Adds a field to a struct type; an enum type is left as it is.
    pub fn add_field(&mut self, field: NamedEntityAbi)
        ensures
            final(self).name == old(self).name,
            final(self).type_identifier == old(self).type_identifier,
            final(self).type_spec == old(self).type_spec,
            old(self).kind_information matches KindInfo::Struct { fields } ==> (
            final(self).kind_information matches KindInfo::Struct { fields: f2 }
                && f2@ == fields@.push(field)),
            old(self).kind_information is Enum ==> final(self).kind_information
                == old(self).kind_information,
    {
        match &mut self.kind_information {
            KindInfo::Struct { fields } => {
                fields.push(field);
            },
            KindInfo::Enum { .. } => {},
        }
    }

    /// Adds a variant to an enum type; a struct type is left as it is.
    pub fn add_variant(&mut self, variant: EnumVariant)
        ensures
            final(self).name == old(self).name,
            final(self).type_identifier == old(self).type_identifier,
            final(self).type_spec == old(self).type_spec,
            old(self).kind_information matches KindInfo::Enum { variants } ==> (
            final(self).kind_information matches KindInfo::Enum { variants: v2 }
                && v2@ == variants@.push(variant)),
            old(self).kind_information is Struct ==> final(self).kind_information
                == old(self).kind_information,
    {
        match &mut self.kind_information {
            KindInfo::Enum { variants } => {
                variants.push(variant);
            },
            KindInfo::Struct { .. } => {},
        }
    }

    /// Writes the named type.
    pub fn serialize_abi(&self, writer: &mut Vec<u8>)
        ensures
            final(writer)@ == old(writer)@ + named_type_bytes(*self),
    {
        match &self.kind_information {
            KindInfo::Struct { fields } => {
                writer.push(1);
                self.name.rpc_write_to(writer);
                serialize_named_entities(fields, writer);
            },
            KindInfo::Enum { variants } => {
                writer.push(2);
                self.name.rpc_write_to(writer);
                serialize_enum_variants(variants, writer);
            },
        }
        assert(final(writer)@ =~= old(writer)@ + named_type_bytes(*self));
    }
}

/// The magic bytes that begin an ABI file: `PBCABI` in ASCII.
pub open spec fn abi_magic() -> Seq<u8> {
    seq![0x50u8, 0x42u8, 0x43u8, 0x41u8, 0x42u8, 0x49u8]
}

/// The header of an ABI file: the magic bytes, then the binder's version, then
/// the client's version.
pub fn abi_header_bytes(version_binder: [u8; 3], version_client: [u8; 3]) -> (res: [u8; 12])
    ensures
        res@ == abi_magic() + version_binder@ + version_client@,
{
    let mut bytes = [0u8; 12];
    bytes[0] = 0x50;
    bytes[1] = 0x42;
    bytes[2] = 0x43;
    bytes[3] = 0x41;
    bytes[4] = 0x42;
    bytes[5] = 0x49;
    bytes[6] = version_binder[0];
    bytes[7] = version_binder[1];
    bytes[8] = version_binder[2];
    bytes[9] = version_client[0];
    bytes[10] = version_client[1];
    bytes[11] = version_client[2];
    assert(bytes@ =~= abi_magic() + version_binder@ + version_client@);
    bytes
}

/// Whether exactly one of `types` is named `name`.
pub open spec fn names_one_type(name: Seq<char>, types: Seq<NamedTypeSpec>) -> bool {
    &&& exists|i: int| 0 <= i < types.len() && #[trigger] types[i].name@ == name
    &&& forall|i: int, j: int|
        0 <= i < types.len() && 0 <= j < types.len() && #[trigger] types[i].name@ == name
            && #[trigger] types[j].name@ == name ==> i == j
}

/// The index of the state's type among `types`: the one type with the state's
/// name.
pub fn find_state_index(state_name: &String, types: &[NamedTypeSpec]) -> (res: usize)
    requires
        names_one_type(state_name@, types@),
    ensures
        res < types@.len(),
        types@[res as int].name@ == state_name@,
{
    let mut i: usize = 0;
    while i < types.len()
        invariant
            i <= types@.len(),
            names_one_type(state_name@, types@),
            forall|j: int| 0 <= j < i ==> types@[j].name@ != state_name@,
        decreases types@.len() - i,
    {
        if types[i].name == *state_name {
            return i;
        }
        i = i + 1;
    }
    i
}

/// A function's ABI begins with the byte of its kind: 0x01 for init, 0x02 for
/// an action, 0x03 for a callback, 0x10 to 0x17 for the zero-knowledge hooks.
pub proof fn law_fn_abi_starts_with_kind(f: FnAbiView)
    ensures
        fn_abi_bytes(f).len() > 0,
        f.1 is Init ==> fn_abi_bytes(f)[0] == 0x01u8,
        f.1 is Action ==> fn_abi_bytes(f)[0] == 0x02u8,
        f.1 is Callback ==> fn_abi_bytes(f)[0] == 0x03u8,
        f.1 is ZkSecretInput ==> fn_abi_bytes(f)[0] == 0x10u8,
        f.1 is ZkVarInputted ==> fn_abi_bytes(f)[0] == 0x11u8,
        f.1 is ZkVarRejected ==> fn_abi_bytes(f)[0] == 0x12u8,
        f.1 is ZkComputeComplete ==> fn_abi_bytes(f)[0] == 0x13u8,
        f.1 is ZkVarOpened ==> fn_abi_bytes(f)[0] == 0x14u8,
        f.1 is ZkUserVarOpened ==> fn_abi_bytes(f)[0] == 0x15u8,
        f.1 is ZkAttestationComplete ==> fn_abi_bytes(f)[0] == 0x16u8,
        f.1 is ZkSecretInputWithExplicitType ==> fn_abi_bytes(f)[0] == 0x17u8,
{
}

} // verus!
