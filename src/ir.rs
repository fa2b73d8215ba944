use vstd::prelude::*;

verus! {

/// One step of the intermediate form that a higher-level front end lowers
/// into assembly text.
pub enum IrInstruction {
    Declaration(String),
}

/// A named sequence of intermediate instructions.
pub struct Function {
    pub name: String,
    pub instructions: Vec<IrInstruction>,
}

} // verus!
