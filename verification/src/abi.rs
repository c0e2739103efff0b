use vstd::prelude::*;

use crate::name_map::NamedWitnesses;
use crate::witness::Witness;

verus! {

#[derive(Clone, Copy, Debug, PartialEq, Eq, Structural)]
pub enum Sign {
    Unsigned,
    Signed,
}

/// Whether a parameter of the main function is public or private.
#[derive(Clone, Copy, Debug, PartialEq, Eq, Structural)]
pub enum AbiVisibility {
    Public,
    Private,
}

/// The types that a parameter of the main function can have in the ABI.
#[derive(Debug)]
pub enum AbiType {
    Field,
    Array { length: u64, typ: Box<AbiType> },
    Integer { sign: Sign, width: u32 },
    Boolean,
    /// The fields of a struct, by name. A field that appears twice counts once, with the
    /// type of its last occurrence, as when the fields are collected into a `BTreeMap`.
    Struct { fields: Vec<(String, AbiType)> },
    String { length: u64 },
}

/// A parameter of the main function, as the ABI describes it.
#[derive(Debug)]
pub struct AbiParameter {
    pub name: String,
    pub typ: AbiType,
    pub visibility: AbiVisibility,
}

/// The ABI of a compiled program: its parameters, the witnesses that hold each of them,
/// its return type and the witnesses that hold the return value.
pub struct Abi {
    pub parameters: Vec<AbiParameter>,
    pub param_witnesses: NamedWitnesses,
    pub return_type: Option<AbiType>,
    pub return_witnesses: Vec<Witness>,
}

} // verus!
