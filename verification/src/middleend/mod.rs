pub mod analysis;
pub mod builder;
pub mod inst;
pub mod ir_compile;
pub mod ir_display;
pub mod ir_interpret;
pub mod ir;
pub mod optimalizations;

use vstd::prelude::*;

verus! {

/// Operation codes of the byte-coded instructions.
#[derive(Clone, Copy, PartialEq, Eq, Debug, Structural)]
pub enum OpCode {
    Ldi,
    Ld,
    Add,
}

/// Types of byte-coded registers.
#[derive(Clone, Copy, PartialEq, Eq, Debug, Structural)]
pub enum RegType {
    Void,
    Int,
}

/// A byte-coded register: its number.
pub type Register = usize;

/// Index of a byte-coded basic block.
pub type BBIndex = usize;

/// Operands of byte-coded instructions.
#[derive(PartialEq, Eq, Debug)]
pub enum InstructionType {
    ImmI(i32),
    Reg(Register),
    RegReg(Register, Register),
    RegRegs(Register, Vec<Register>),
    Terminator(BBIndex),
    TerminatorBrach(BBIndex, BBIndex),
}

/// A byte-coded instruction: the type of its result, its name, its code and operands.
#[derive(PartialEq, Eq, Debug)]
pub struct Instruction {
    pub reg_type: RegType,
    pub name: String,
    pub op_code: OpCode,
    pub data: InstructionType,
}

/// A byte-coded basic block.
pub struct BasicBlock {
    pub instruction: Vec<Instruction>,
}

impl Instruction {
    pub fn new(reg_type: RegType, name: &str, op_code: OpCode, data: InstructionType) -> (r: Self)
        ensures
            r.reg_type == reg_type,
            r.name@ == name@,
            r.op_code == op_code,
            r.data == data,
    {
        Self { reg_type, name: String::from_str(name), op_code, data }
    }

    /// Loads the constant `num`; it carries the code of an addition.
    pub fn ldi(num: i32) -> (r: Self)
        ensures
            r.reg_type == RegType::Int,
            r.name@ == "ldi"@,
            r.op_code == OpCode::Add,
            r.data == InstructionType::ImmI(num),
    {
        let r = Self::new(RegType::Int, "ldi", OpCode::Add, InstructionType::ImmI(num));
        proof {
            reveal_strlit("ldi");
        }
        r
    }

    /// Loads from the register `reg`; it carries the code of a constant load.
    pub fn ld(reg: Register) -> (r: Self)
        ensures
            r.reg_type == RegType::Int,
            r.name@ == "ld"@,
            r.op_code == OpCode::Ldi,
            r.data == InstructionType::Reg(reg),
    {
        let r = Self::new(RegType::Int, "ld", OpCode::Ldi, InstructionType::Reg(reg));
        proof {
            reveal_strlit("ld");
        }
        r
    }
}

/// The sum of two numbers.
pub fn add(left: usize, right: usize) -> (r: usize)
    requires
        left + right <= usize::MAX,
    ensures
        r == left + right,
{
    left + right
}

} // verus!
