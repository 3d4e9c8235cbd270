use vstd::prelude::*;

use crate::middleend::ir::{InstUUID, Register};

verus! {

/// Registers of the target: pseudo registers (a register of the intermediate code, an
/// argument register, zero, the stack pointer, the return address) and numbered
/// architectural registers.
#[derive(Clone, Copy, PartialEq, Eq, Hash, Debug, Structural)]
pub enum Rd {
    Ir(Register),
    ArgReg(u8),
    Zero,
    Sp,
    Ra,
    Arch(usize),
}

pub type Imm = i64;

pub type Offset = i64;

/// RISC-V instructions, with a call and a return as pseudo instructions; the name of a
/// jump or branch is the function it jumps in.
#[derive(PartialEq, Eq, Debug)]
pub enum AsmInstruction {
    Lui(Rd, Imm),
    Auipc(Rd, Imm),
    Jal(Rd, Offset, String),
    Jalr(Rd, Rd, Offset),
    Beq(Rd, Rd, Offset, String),
    Bne(Rd, Rd, Offset, String),
    Blt(Rd, Rd, Offset, String),
    Bge(Rd, Rd, Offset, String),
    Bltu(Rd, Rd, Offset, String),
    Bgeu(Rd, Rd, Offset, String),
    Lb(Rd, Rd, Offset),
    Lh(Rd, Rd, Offset),
    Lw(Rd, Rd, Offset),
    Ld(Rd, Rd, Offset),
    Lbu(Rd, Rd, Offset),
    Lhu(Rd, Rd, Offset),
    Sb(Rd, Rd, Offset),
    Sh(Rd, Rd, Offset),
    Sw(Rd, Rd, Offset),
    Sd(Rd, Rd, Offset),
    Addi(Rd, Rd, Imm),
    Slti(Rd, Rd, Imm),
    Sltiu(Rd, Rd, Imm),
    Xori(Rd, Rd, Imm),
    Ori(Rd, Rd, Imm),
    Andi(Rd, Rd, Imm),
    Slli(Rd, Rd, Imm),
    Srli(Rd, Rd, Imm),
    Srai(Rd, Rd, Imm),
    Add(Rd, Rd, Rd),
    Mul(Rd, Rd, Rd),
    Sub(Rd, Rd, Rd),
    Sll(Rd, Rd, Rd),
    Srl(Rd, Rd, Rd),
    Slt(Rd, Rd, Rd),
    Sltu(Rd, Rd, Rd),
    Xor(Rd, Rd, Rd),
    Or(Rd, Rd, Rd),
    And(Rd, Rd, Rd),
    Sra(Rd, Rd, Rd),
    Call(String, InstUUID),
    Ret,
    Ecall,
}

/// The registers an instruction reads, in order.
pub open spec fn reads_of(i: AsmInstruction) -> Seq<Rd> {
    match i {
        AsmInstruction::Jalr(_, rs1, _) => seq![rs1],
        AsmInstruction::Beq(rs1, rs2, _, _) => seq![rs1, rs2],
        AsmInstruction::Bne(rs1, rs2, _, _) => seq![rs1, rs2],
        AsmInstruction::Blt(rs1, rs2, _, _) => seq![rs1, rs2],
        AsmInstruction::Bge(rs1, rs2, _, _) => seq![rs1, rs2],
        AsmInstruction::Bltu(rs1, rs2, _, _) => seq![rs1, rs2],
        AsmInstruction::Bgeu(rs1, rs2, _, _) => seq![rs1, rs2],
        AsmInstruction::Lb(_, rs1, _) => seq![rs1],
        AsmInstruction::Lh(_, rs1, _) => seq![rs1],
        AsmInstruction::Lw(_, rs1, _) => seq![rs1],
        AsmInstruction::Ld(_, rs1, _) => seq![rs1],
        AsmInstruction::Lbu(_, rs1, _) => seq![rs1],
        AsmInstruction::Lhu(_, rs1, _) => seq![rs1],
        AsmInstruction::Sb(rs1, rs2, _) => seq![rs1, rs2],
        AsmInstruction::Sh(rs1, rs2, _) => seq![rs1, rs2],
        AsmInstruction::Sw(rs1, rs2, _) => seq![rs1, rs2],
        AsmInstruction::Sd(rs1, rs2, _) => seq![rs1, rs2],
        AsmInstruction::Addi(_, rs1, _) => seq![rs1],
        AsmInstruction::Slti(_, rs1, _) => seq![rs1],
        AsmInstruction::Sltiu(_, rs1, _) => seq![rs1],
        AsmInstruction::Xori(_, rs1, _) => seq![rs1],
        AsmInstruction::Ori(_, rs1, _) => seq![rs1],
        AsmInstruction::Andi(_, rs1, _) => seq![rs1],
        AsmInstruction::Slli(_, rs1, _) => seq![rs1],
        AsmInstruction::Srli(_, rs1, _) => seq![rs1],
        AsmInstruction::Srai(_, rs1, _) => seq![rs1],
        AsmInstruction::Add(_, rs1, rs2) => seq![rs1, rs2],
        AsmInstruction::Mul(_, rs1, rs2) => seq![rs1, rs2],
        AsmInstruction::Sub(_, rs1, rs2) => seq![rs1, rs2],
        AsmInstruction::Sll(_, rs1, rs2) => seq![rs1, rs2],
        AsmInstruction::Srl(_, rs1, rs2) => seq![rs1, rs2],
        AsmInstruction::Slt(_, rs1, rs2) => seq![rs1, rs2],
        AsmInstruction::Sltu(_, rs1, rs2) => seq![rs1, rs2],
        AsmInstruction::Xor(_, rs1, rs2) => seq![rs1, rs2],
        AsmInstruction::Or(_, rs1, rs2) => seq![rs1, rs2],
        AsmInstruction::And(_, rs1, rs2) => seq![rs1, rs2],
        AsmInstruction::Sra(_, rs1, rs2) => seq![rs1, rs2],
        _ => seq![],
    }
}

/// The register an instruction writes, if any.
pub open spec fn write_of(i: AsmInstruction) -> Option<Rd> {
    match i {
        AsmInstruction::Lui(rd, _) => Some(rd),
        AsmInstruction::Auipc(rd, _) => Some(rd),
        AsmInstruction::Jal(rd, _, _) => Some(rd),
        AsmInstruction::Jalr(rd, _, _) => Some(rd),
        AsmInstruction::Lb(rd, _, _) => Some(rd),
        AsmInstruction::Lh(rd, _, _) => Some(rd),
        AsmInstruction::Lw(rd, _, _) => Some(rd),
        AsmInstruction::Ld(rd, _, _) => Some(rd),
        AsmInstruction::Lbu(rd, _, _) => Some(rd),
        AsmInstruction::Lhu(rd, _, _) => Some(rd),
        AsmInstruction::Addi(rd, _, _) => Some(rd),
        AsmInstruction::Slti(rd, _, _) => Some(rd),
        AsmInstruction::Sltiu(rd, _, _) => Some(rd),
        AsmInstruction::Xori(rd, _, _) => Some(rd),
        AsmInstruction::Ori(rd, _, _) => Some(rd),
        AsmInstruction::Andi(rd, _, _) => Some(rd),
        AsmInstruction::Slli(rd, _, _) => Some(rd),
        AsmInstruction::Srli(rd, _, _) => Some(rd),
        AsmInstruction::Srai(rd, _, _) => Some(rd),
        AsmInstruction::Add(rd, _, _) => Some(rd),
        AsmInstruction::Mul(rd, _, _) => Some(rd),
        AsmInstruction::Sub(rd, _, _) => Some(rd),
        AsmInstruction::Sll(rd, _, _) => Some(rd),
        AsmInstruction::Srl(rd, _, _) => Some(rd),
        AsmInstruction::Slt(rd, _, _) => Some(rd),
        AsmInstruction::Sltu(rd, _, _) => Some(rd),
        AsmInstruction::Xor(rd, _, _) => Some(rd),
        AsmInstruction::Or(rd, _, _) => Some(rd),
        AsmInstruction::And(rd, _, _) => Some(rd),
        AsmInstruction::Sra(rd, _, _) => Some(rd),
        _ => None,
    }
}

impl AsmInstruction {
    /// Size of the encoded instruction in bytes.
    pub fn size(&self) -> (r: usize)
        ensures
            r == 4,
    {
        4
    }

    /// The registers the instruction reads.
    pub fn get_reads(&self) -> (r: Vec<Rd>)
        ensures
            r@ == reads_of(*self),
    {
        match self {
            AsmInstruction::Jalr(_, rs1, _) => vec![*rs1],
            AsmInstruction::Beq(rs1, rs2, _, _) => vec![*rs1, *rs2],
            AsmInstruction::Bne(rs1, rs2, _, _) => vec![*rs1, *rs2],
            AsmInstruction::Blt(rs1, rs2, _, _) => vec![*rs1, *rs2],
            AsmInstruction::Bge(rs1, rs2, _, _) => vec![*rs1, *rs2],
            AsmInstruction::Bltu(rs1, rs2, _, _) => vec![*rs1, *rs2],
            AsmInstruction::Bgeu(rs1, rs2, _, _) => vec![*rs1, *rs2],
            AsmInstruction::Lb(_, rs1, _) => vec![*rs1],
            AsmInstruction::Lh(_, rs1, _) => vec![*rs1],
            AsmInstruction::Lw(_, rs1, _) => vec![*rs1],
            AsmInstruction::Ld(_, rs1, _) => vec![*rs1],
            AsmInstruction::Lbu(_, rs1, _) => vec![*rs1],
            AsmInstruction::Lhu(_, rs1, _) => vec![*rs1],
            AsmInstruction::Sb(rs1, rs2, _) => vec![*rs1, *rs2],
            AsmInstruction::Sh(rs1, rs2, _) => vec![*rs1, *rs2],
            AsmInstruction::Sw(rs1, rs2, _) => vec![*rs1, *rs2],
            AsmInstruction::Sd(rs1, rs2, _) => vec![*rs1, *rs2],
            AsmInstruction::Addi(_, rs1, _) => vec![*rs1],
            AsmInstruction::Slti(_, rs1, _) => vec![*rs1],
            AsmInstruction::Sltiu(_, rs1, _) => vec![*rs1],
            AsmInstruction::Xori(_, rs1, _) => vec![*rs1],
            AsmInstruction::Ori(_, rs1, _) => vec![*rs1],
            AsmInstruction::Andi(_, rs1, _) => vec![*rs1],
            AsmInstruction::Slli(_, rs1, _) => vec![*rs1],
            AsmInstruction::Srli(_, rs1, _) => vec![*rs1],
            AsmInstruction::Srai(_, rs1, _) => vec![*rs1],
            AsmInstruction::Add(_, rs1, rs2) => vec![*rs1, *rs2],
            AsmInstruction::Mul(_, rs1, rs2) => vec![*rs1, *rs2],
            AsmInstruction::Sub(_, rs1, rs2) => vec![*rs1, *rs2],
            AsmInstruction::Sll(_, rs1, rs2) => vec![*rs1, *rs2],
            AsmInstruction::Srl(_, rs1, rs2) => vec![*rs1, *rs2],
            AsmInstruction::Slt(_, rs1, rs2) => vec![*rs1, *rs2],
            AsmInstruction::Sltu(_, rs1, rs2) => vec![*rs1, *rs2],
            AsmInstruction::Xor(_, rs1, rs2) => vec![*rs1, *rs2],
            AsmInstruction::Or(_, rs1, rs2) => vec![*rs1, *rs2],
            AsmInstruction::And(_, rs1, rs2) => vec![*rs1, *rs2],
            AsmInstruction::Sra(_, rs1, rs2) => vec![*rs1, *rs2],
            _ => Vec::new(),
        }
    }

    /// The register the instruction writes, if any.
    pub fn get_write(&self) -> (r: Option<Rd>)
        ensures
            r == write_of(*self),
    {
        match self {
            AsmInstruction::Lui(rd, _) => Some(*rd),
        AsmInstruction::Auipc(rd, _) => Some(*rd),
        AsmInstruction::Jal(rd, _, _) => Some(*rd),
        AsmInstruction::Jalr(rd, _, _) => Some(*rd),
            AsmInstruction::Lb(rd, _, _) => Some(*rd),
            AsmInstruction::Lh(rd, _, _) => Some(*rd),
            AsmInstruction::Lw(rd, _, _) => Some(*rd),
            AsmInstruction::Ld(rd, _, _) => Some(*rd),
            AsmInstruction::Lbu(rd, _, _) => Some(*rd),
            AsmInstruction::Lhu(rd, _, _) => Some(*rd),
            AsmInstruction::Addi(rd, _, _) => Some(*rd),
            AsmInstruction::Slti(rd, _, _) => Some(*rd),
            AsmInstruction::Sltiu(rd, _, _) => Some(*rd),
            AsmInstruction::Xori(rd, _, _) => Some(*rd),
            AsmInstruction::Ori(rd, _, _) => Some(*rd),
            AsmInstruction::Andi(rd, _, _) => Some(*rd),
            AsmInstruction::Slli(rd, _, _) => Some(*rd),
            AsmInstruction::Srli(rd, _, _) => Some(*rd),
            AsmInstruction::Srai(rd, _, _) => Some(*rd),
            AsmInstruction::Add(rd, _, _) => Some(*rd),
            AsmInstruction::Mul(rd, _, _) => Some(*rd),
            AsmInstruction::Sub(rd, _, _) => Some(*rd),
            AsmInstruction::Sll(rd, _, _) => Some(*rd),
            AsmInstruction::Srl(rd, _, _) => Some(*rd),
            AsmInstruction::Slt(rd, _, _) => Some(*rd),
            AsmInstruction::Sltu(rd, _, _) => Some(*rd),
            AsmInstruction::Xor(rd, _, _) => Some(*rd),
            AsmInstruction::Or(rd, _, _) => Some(*rd),
            AsmInstruction::And(rd, _, _) => Some(*rd),
            AsmInstruction::Sra(rd, _, _) => Some(*rd),
            _ => None,
        }
    }

    /// A copy of the instruction.
    pub fn duplicate(&self) -> (r: AsmInstruction)
        ensures
            r == *self,
    {
        match self {
            AsmInstruction::Lui(a, b) => AsmInstruction::Lui(*a, *b),
            AsmInstruction::Auipc(a, b) => AsmInstruction::Auipc(*a, *b),
            AsmInstruction::Jal(a, b, s) => AsmInstruction::Jal(*a, *b, s.clone()),
            AsmInstruction::Jalr(a, b, c) => AsmInstruction::Jalr(*a, *b, *c),
            AsmInstruction::Beq(a, b, c, s) => AsmInstruction::Beq(*a, *b, *c, s.clone()),
            AsmInstruction::Bne(a, b, c, s) => AsmInstruction::Bne(*a, *b, *c, s.clone()),
            AsmInstruction::Blt(a, b, c, s) => AsmInstruction::Blt(*a, *b, *c, s.clone()),
            AsmInstruction::Bge(a, b, c, s) => AsmInstruction::Bge(*a, *b, *c, s.clone()),
            AsmInstruction::Bltu(a, b, c, s) => AsmInstruction::Bltu(*a, *b, *c, s.clone()),
            AsmInstruction::Bgeu(a, b, c, s) => AsmInstruction::Bgeu(*a, *b, *c, s.clone()),
            AsmInstruction::Lb(a, b, c) => AsmInstruction::Lb(*a, *b, *c),
            AsmInstruction::Lh(a, b, c) => AsmInstruction::Lh(*a, *b, *c),
            AsmInstruction::Lw(a, b, c) => AsmInstruction::Lw(*a, *b, *c),
            AsmInstruction::Ld(a, b, c) => AsmInstruction::Ld(*a, *b, *c),
            AsmInstruction::Lbu(a, b, c) => AsmInstruction::Lbu(*a, *b, *c),
            AsmInstruction::Lhu(a, b, c) => AsmInstruction::Lhu(*a, *b, *c),
            AsmInstruction::Sb(a, b, c) => AsmInstruction::Sb(*a, *b, *c),
            AsmInstruction::Sh(a, b, c) => AsmInstruction::Sh(*a, *b, *c),
            AsmInstruction::Sw(a, b, c) => AsmInstruction::Sw(*a, *b, *c),
            AsmInstruction::Sd(a, b, c) => AsmInstruction::Sd(*a, *b, *c),
            AsmInstruction::Addi(a, b, c) => AsmInstruction::Addi(*a, *b, *c),
            AsmInstruction::Slti(a, b, c) => AsmInstruction::Slti(*a, *b, *c),
            AsmInstruction::Sltiu(a, b, c) => AsmInstruction::Sltiu(*a, *b, *c),
            AsmInstruction::Xori(a, b, c) => AsmInstruction::Xori(*a, *b, *c),
            AsmInstruction::Ori(a, b, c) => AsmInstruction::Ori(*a, *b, *c),
            AsmInstruction::Andi(a, b, c) => AsmInstruction::Andi(*a, *b, *c),
            AsmInstruction::Slli(a, b, c) => AsmInstruction::Slli(*a, *b, *c),
            AsmInstruction::Srli(a, b, c) => AsmInstruction::Srli(*a, *b, *c),
            AsmInstruction::Srai(a, b, c) => AsmInstruction::Srai(*a, *b, *c),
            AsmInstruction::Add(a, b, c) => AsmInstruction::Add(*a, *b, *c),
            AsmInstruction::Mul(a, b, c) => AsmInstruction::Mul(*a, *b, *c),
            AsmInstruction::Sub(a, b, c) => AsmInstruction::Sub(*a, *b, *c),
            AsmInstruction::Sll(a, b, c) => AsmInstruction::Sll(*a, *b, *c),
            AsmInstruction::Srl(a, b, c) => AsmInstruction::Srl(*a, *b, *c),
            AsmInstruction::Slt(a, b, c) => AsmInstruction::Slt(*a, *b, *c),
            AsmInstruction::Sltu(a, b, c) => AsmInstruction::Sltu(*a, *b, *c),
            AsmInstruction::Xor(a, b, c) => AsmInstruction::Xor(*a, *b, *c),
            AsmInstruction::Or(a, b, c) => AsmInstruction::Or(*a, *b, *c),
            AsmInstruction::And(a, b, c) => AsmInstruction::And(*a, *b, *c),
            AsmInstruction::Sra(a, b, c) => AsmInstruction::Sra(*a, *b, *c),
            AsmInstruction::Call(s, id) => AsmInstruction::Call(s.clone(), *id),
            AsmInstruction::Ret => AsmInstruction::Ret,
            AsmInstruction::Ecall => AsmInstruction::Ecall,
        }
    }
}

} // verus!
