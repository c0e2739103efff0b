pub mod witness;
pub mod names;
pub mod name_map;
pub mod acir;
pub mod abi;
pub mod layout;
pub mod evaluator;
pub mod errors;
pub mod hex;
pub mod circuit;
pub mod abi_witnesses;
pub mod runs;
pub mod constraints;
