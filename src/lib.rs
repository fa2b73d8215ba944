//! A two-pass assembler for a small register machine: assembly text is
//! scanned and parsed into labelled blocks of instructions, label addresses
//! are computed from a slot count per instruction, and each instruction is
//! encoded as a line of selector and operand tokens.

pub mod encode;
pub mod error;
pub mod ir;
pub mod isa;
pub mod layout;
pub mod listing;
pub mod operand;
pub mod parse;
pub mod scan;
