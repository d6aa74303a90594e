//! Symbolic data-flow engine and bit-precise solver for RISC-U binaries.
pub mod bitvec;
pub mod bytes;
pub mod compile;
pub mod instruction;
pub mod ternary;
pub mod formula;
pub mod solver;
pub mod smt;
pub mod elf;
pub mod engine;
