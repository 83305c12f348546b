//! Names of contract functions, and the shortnames derived from them.
use vstd::prelude::*;
use vstd::string::StringSliceAdditionalSpecFns;

use crate::shortname::Shortname;
use crate::traits::{be_value, WriteRPC};

verus! {

/// The SHA-256 digest of the given bytes, as `sha2::Sha256` computes it.
pub uninterp spec fn sha256_digest(data: Seq<u8>) -> Seq<u8>;

/// Computes the SHA-256 digest of `data` with `sha2::Sha256` (`Digest::new`,
/// `Digest::update`, `Digest::finalize`). Claimed of the crate: the 32 bytes it
/// returns are the digest of the bytes given, and depend on nothing else.
#[verifier::external_body]
fn sha256(data: &[u8]) -> (res: [u8; 32])
    ensures
        res@ == sha256_digest(data@),
{
    let mut digest = <sha2::Sha256 as sha2::Digest>::new();
    sha2::Digest::update(&mut digest, data);
    sha2::Digest::finalize(digest).into()
}

/// The shortname that a digest gives: its first four bytes, most significant
/// first.
pub open spec fn digest_shortname(digest: Seq<u8>) -> u32 {
    be_value(digest.take(4)) as u32
}

/// The shortname derived from a function's name: the first four bytes of the
/// SHA-256 digest of its UTF-8 bytes, most significant first.
pub open spec fn name_shortname(name: Seq<char>) -> u32 {
    digest_shortname(sha256_digest(vstd::utf8::encode_utf8(name)))
}

/// The shortname of a digest: its first four bytes, most significant first.
pub fn shortname_from_digest(digest: &[u8; 32]) -> (res: Shortname)
    ensures
        res@ == digest_shortname(digest@),
{
    let first = (digest[0] as u32) * 0x100_0000 + (digest[1] as u32) * 0x1_0000
        + (digest[2] as u32) * 0x100 + (digest[3] as u32);
    proof {
        let t = digest@.take(4);
        assert(t.reverse() =~= seq![digest@[3], digest@[2], digest@[1], digest@[0]]);
        reveal_with_fuel(crate::traits::le_value, 5);
        assert(be_value(t) == digest@[3] + 256 * (digest@[2] + 256 * (digest@[1] + 256 * (
        digest@[0] + 256 * 0))));
    }
    Shortname::from_u32(first)
}

/// The shortname derived from a function's name.
fn name_to_shortname(raw_name: &str) -> (res: Shortname)
    ensures
        res@ == name_shortname(raw_name@),
        sha256_digest(vstd::utf8::encode_utf8(raw_name@)).len() == 32,
{
    let digest = sha256(raw_name.as_bytes());
    shortname_from_digest(&digest)
}

/// The name of a contract function, and its shortname.
#[derive(PartialEq, Eq, Debug)]
pub struct FunctionName {
    name: String,
    shortname: Shortname,
}

impl View for FunctionName {
    type V = (Seq<char>, u32);

    /// The name, and the shortname's value.
    closed spec fn view(&self) -> (Seq<char>, u32) {
        (self.name@, self.shortname@)
    }
}

impl FunctionName {
    /// A function name with the given shortname, or, where there is none, the
    /// shortname derived from the name.
    pub fn new(name: String, shortname: Option<Shortname>) -> (res: FunctionName)
        ensures
            res@.0 == name@,
            res@.1 == match shortname {
                Some(s) => s@,
                None => name_shortname(name@),
            },
    {
        FunctionName::create_from_str(name.as_str(), shortname)
    }

    /// A function name with the given shortname, or, where there is none, the
    /// shortname derived from the name.
    pub fn create_from_str(name: &str, shortname_override: Option<Shortname>) -> (res: FunctionName)
        ensures
            res@.0 == name@,
            res@.1 == match shortname_override {
                Some(s) => s@,
                None => name_shortname(name@),
            },
            shortname_override is None ==> sha256_digest(vstd::utf8::encode_utf8(name@)).len() == 32,
    {
        let shortname = match shortname_override {
            Some(value) => value,
            None => name_to_shortname(name),
        };
        FunctionName { name: name.to_owned(), shortname }
    }

    /// The shortname.
    pub fn shortname(&self) -> (res: &Shortname)
        ensures
            res@ == self@.1,
    {
        &self.shortname
    }

    /// Writes the name in the RPC format, then the shortname's bytes.
    pub fn serialize_abi(&self, writer: &mut Vec<u8>)
        ensures
            final(writer)@ == old(writer)@ + crate::traits::misc::string_rpc_bytes(self@.0)
                + crate::leb128::leb128_encode(self@.1 as nat),
    {
        self.name.rpc_write_to(writer);
        let bytes = self.shortname.bytes();
        crate::traits::write_bytes(writer, bytes.as_slice());
        assert(writer@ =~= old(writer)@ + self.name.rpc_bytes() + crate::leb128::leb128_encode(
            self@.1 as nat,
        ));
    }
}

/// The kinds of contract functions.
#[derive(PartialEq, Eq, Structural, Debug, Clone, Copy)]
pub enum FunctionKind {
    /// The contract's initialization.
    Init,
    /// An action.
    Action,
    /// A callback.
    Callback,
    /// A secret input; replaced by `ZkSecretInputWithExplicitType`.
    ZkSecretInput,
    /// Runs when a secret variable has been input.
    ZkVarInputted,
    /// Runs when a secret variable has been rejected.
    ZkVarRejected,
    /// Runs when a computation is complete.
    ZkComputeComplete,
    /// Runs when secret variables have been opened.
    ZkVarOpened,
    /// Runs when a user's secret variable has been opened.
    ZkUserVarOpened,
    /// Runs when an attestation is complete.
    ZkAttestationComplete,
    /// A secret input of an explicit type.
    ZkSecretInputWithExplicitType,
}

/// The byte of a function kind.
pub open spec fn function_kind_byte(k: FunctionKind) -> u8 {
    match k {
        FunctionKind::Init => 0x01,
        FunctionKind::Action => 0x02,
        FunctionKind::Callback => 0x03,
        FunctionKind::ZkSecretInput => 0x10,
        FunctionKind::ZkVarInputted => 0x11,
        FunctionKind::ZkVarRejected => 0x12,
        FunctionKind::ZkComputeComplete => 0x13,
        FunctionKind::ZkVarOpened => 0x14,
        FunctionKind::ZkUserVarOpened => 0x15,
        FunctionKind::ZkAttestationComplete => 0x16,
        FunctionKind::ZkSecretInputWithExplicitType => 0x17,
    }
}

impl FunctionKind {
    /// The byte of the function kind.
    pub fn discriminant(&self) -> (res: u8)
        ensures
            res == function_kind_byte(*self),
    {
        match self {
            FunctionKind::Init => 0x01,
            FunctionKind::Action => 0x02,
            FunctionKind::Callback => 0x03,
            FunctionKind::ZkSecretInput => 0x10,
            FunctionKind::ZkVarInputted => 0x11,
            FunctionKind::ZkVarRejected => 0x12,
            FunctionKind::ZkComputeComplete => 0x13,
            FunctionKind::ZkVarOpened => 0x14,
            FunctionKind::ZkUserVarOpened => 0x15,
            FunctionKind::ZkAttestationComplete => 0x16,
            FunctionKind::ZkSecretInputWithExplicitType => 0x17,
        }
    }
}

impl WriteRPC for FunctionKind {
    open spec fn rpc_bytes(&self) -> Seq<u8> {
        seq![function_kind_byte(*self)]
    }

    open spec fn rpc_representable(&self) -> bool {
        true
    }

    fn rpc_write_to(&self, writer: &mut Vec<u8>) {
        writer.push(self.discriminant());
    }
}

/// Each kind of function hook is written as the byte that the ABI fixes for it:
/// 0x01 for init, 0x02 for actions, 0x03 for callbacks, and 0x10 to 0x17 for the
/// zero-knowledge hooks; no two kinds share a byte.
pub proof fn law_function_kind_bytes(k: FunctionKind, other: FunctionKind)
    ensures
        k.rpc_bytes() == seq![function_kind_byte(k)],
        k is Init ==> function_kind_byte(k) == 0x01u8,
        k is Action ==> function_kind_byte(k) == 0x02u8,
        k is Callback ==> function_kind_byte(k) == 0x03u8,
        k is ZkSecretInput ==> function_kind_byte(k) == 0x10u8,
        k is ZkVarInputted ==> function_kind_byte(k) == 0x11u8,
        k is ZkVarRejected ==> function_kind_byte(k) == 0x12u8,
        k is ZkComputeComplete ==> function_kind_byte(k) == 0x13u8,
        k is ZkVarOpened ==> function_kind_byte(k) == 0x14u8,
        k is ZkUserVarOpened ==> function_kind_byte(k) == 0x15u8,
        k is ZkAttestationComplete ==> function_kind_byte(k) == 0x16u8,
        k is ZkSecretInputWithExplicitType ==> function_kind_byte(k) == 0x17u8,
        function_kind_byte(k) == function_kind_byte(other) ==> k == other,
{
}

} // verus!
