use vstd::prelude::*;

verus! {

/// Errors of building the constraint system.
#[derive(Debug)]
pub enum RuntimeErrorKind {
    /// An error that no source location goes with.
    Spanless(String),
    /// An error with a message alone.
    UnstructuredError { message: String },
}

/// Why hex text does not decode to bytes.
#[derive(Clone, Copy, Debug, PartialEq, Eq, Structural)]
pub enum HexError {
    /// The byte at `index` is not a hex digit; `c` is that byte taken as a char.
    InvalidHexCharacter { c: char, index: usize },
    /// The text has an odd number of digits.
    OddLength,
    /// The text does not fit the length of a fixed-size output.
    InvalidStringLength,
}

} // verus!
