// A two-pass assembler for a subset of the RISC-V base integer instructions.
pub mod assemble;
pub mod encode;
pub mod isa;
pub mod number;
pub mod register;
pub mod symbols;
pub mod text;
