use vstd::prelude::*;

use crate::backend::insts::AsmInstruction;

verus! {

/// A basic block of target code.
pub type AsmBasicBlock = Vec<AsmInstruction>;

/// A function of target code: its name and blocks.
pub struct AsmFunction {
    pub name: String,
    pub blocks: Vec<AsmBasicBlock>,
}

/// A program of target code: its data, the code that starts it and its functions.
pub struct AsmProgram {
    pub data: Vec<(String, Vec<u8>)>,
    pub start: AsmBasicBlock,
    pub text: Vec<AsmFunction>,
}

impl AsmProgram {
    /// The empty program.
    pub fn default() -> (p: Self)
        ensures
            p.data@.len() == 0,
            p.start@.len() == 0,
            p.text@.len() == 0,
    {
        Self { data: Vec::new(), start: Vec::new(), text: Vec::new() }
    }
}

} // verus!
