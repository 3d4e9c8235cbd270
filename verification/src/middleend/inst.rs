use vstd::prelude::*;

use crate::middleend::ir::{BBIndex, Register};

verus! {

/// Instructions of the intermediate representation.
#[derive(PartialEq, Eq, Debug)]
pub enum InstructionType {
    Ldi(ImmI),
    Ldc(ImmC),
    Ld(Reg),
    /// `[address], value`
    St(RegReg),
    Alloca(ImmI),
    Allocg(ImmI),
    /// `[address], index, offset`
    Gep(usize, RegRegImm),
    Mov(Reg),
    Add(RegReg),
    Sub(RegReg),
    Mul(RegReg),
    Div(RegReg),
    Mod(RegReg),
    Shr(RegReg),
    Shl(RegReg),
    And(RegReg),
    Or(RegReg),
    Xor(RegReg),
    Neg(Reg),
    Lt(RegReg),
    Le(RegReg),
    Gt(RegReg),
    Ge(RegReg),
    Eql(RegReg),
    Call(RegRegs),
    CallDirect(SymRegs),
    Arg(ImmI),
    Ret(Terminator),
    Exit(Terminator),
    Retr(TerminatorReg),
    Jmp(TerminatorJump),
    Branch(TerminatorBranch),
    Print(Reg),
    SysCall(ImmIRegs),
    Phi(RegRegs),
}

#[derive(Clone, Copy, PartialEq, Eq, Debug, Structural)]
pub struct ImmI(pub i64);

#[derive(PartialEq, Eq, Debug)]
pub struct ImmIRegs(pub i64, pub Vec<Register>);

#[derive(Clone, Copy, PartialEq, Eq, Debug, Structural)]
pub struct ImmC(pub char);

#[derive(PartialEq, Eq, Debug)]
pub struct ImmS(pub String);

#[derive(Clone, Copy, PartialEq, Eq, Debug, Structural)]
pub struct Reg(pub Register);

#[derive(Clone, Copy, PartialEq, Eq, Debug, Structural)]
pub struct RegReg(pub Register, pub Register);

#[derive(PartialEq, Eq, Debug)]
pub struct RegRegs(pub Register, pub Vec<Register>);

#[derive(PartialEq, Eq, Debug)]
pub struct SymRegs(pub String, pub Vec<Register>);

#[derive(Clone, Copy, PartialEq, Eq, Debug, Structural)]
pub struct RegRegImm(pub Register, pub Register, pub i64);

#[derive(Clone, Copy, PartialEq, Eq, Debug, Structural)]
pub struct Terminator;

#[derive(Clone, Copy, PartialEq, Eq, Debug, Structural)]
pub struct TerminatorJump(pub BBIndex);

#[derive(Clone, Copy, PartialEq, Eq, Debug, Structural)]
pub struct TerminatorBranch(pub Register, pub BBIndex, pub BBIndex);

#[derive(Clone, Copy, PartialEq, Eq, Debug, Structural)]
pub struct TerminatorReg(pub Register);

/// Whether an instruction ends a basic block by leaving it.
pub open spec fn is_terminator(i: InstructionType) -> bool {
    i is Ret || i is Exit || i is Retr || i is Jmp || i is Branch
}

/// The registers an instruction reads, in order; a call and a phi node list their
/// arguments first and the callee or first operand last.
pub open spec fn regs_of(i: InstructionType) -> Seq<Register> {
    match i {
        InstructionType::Ld(Reg(a)) => seq![a],
        InstructionType::St(RegReg(a, b)) => seq![a, b],
        InstructionType::Mov(Reg(a)) => seq![a],
        InstructionType::Gep(_, RegRegImm(a, b, _)) => seq![a, b],
        InstructionType::Add(RegReg(a, b)) => seq![a, b],
        InstructionType::Sub(RegReg(a, b)) => seq![a, b],
        InstructionType::Mul(RegReg(a, b)) => seq![a, b],
        InstructionType::Div(RegReg(a, b)) => seq![a, b],
        InstructionType::Mod(RegReg(a, b)) => seq![a, b],
        InstructionType::Shr(RegReg(a, b)) => seq![a, b],
        InstructionType::Shl(RegReg(a, b)) => seq![a, b],
        InstructionType::And(RegReg(a, b)) => seq![a, b],
        InstructionType::Or(RegReg(a, b)) => seq![a, b],
        InstructionType::Xor(RegReg(a, b)) => seq![a, b],
        InstructionType::Neg(Reg(a)) => seq![a],
        InstructionType::Lt(RegReg(a, b)) => seq![a, b],
        InstructionType::Le(RegReg(a, b)) => seq![a, b],
        InstructionType::Gt(RegReg(a, b)) => seq![a, b],
        InstructionType::Ge(RegReg(a, b)) => seq![a, b],
        InstructionType::Eql(RegReg(a, b)) => seq![a, b],
        InstructionType::Call(RegRegs(r, rs)) => rs@.push(r),
        InstructionType::CallDirect(SymRegs(_, rs)) => rs@,
        InstructionType::Retr(TerminatorReg(r)) => seq![r],
        InstructionType::Branch(TerminatorBranch(r, _, _)) => seq![r],
        InstructionType::Print(Reg(a)) => seq![a],
        InstructionType::Phi(RegRegs(r, rs)) => rs@.push(r),
        InstructionType::SysCall(ImmIRegs(_, rs)) => rs@,
        _ => seq![],
    }
}

/// The register that `r` is renamed to: its first entry in `renames`, or itself.
pub open spec fn renamed(renames: Seq<(Register, Register)>, r: Register) -> Register
    decreases renames.len(),
{
    if renames.len() == 0 {
        r
    } else if renames[0].0 == r {
        renames[0].1
    } else {
        renamed(renames.drop_first(), r)
    }
}

/// Two instructions of the same kind that agree on everything but the registers they read.
pub open spec fn same_but_regs(a: InstructionType, b: InstructionType) -> bool {
    match (a, b) {
        (InstructionType::Ldi(x), InstructionType::Ldi(y)) => x == y,
        (InstructionType::Ldc(x), InstructionType::Ldc(y)) => x == y,
        (InstructionType::Ld(_), InstructionType::Ld(_)) => true,
        (InstructionType::St(_), InstructionType::St(_)) => true,
        (InstructionType::Alloca(x), InstructionType::Alloca(y)) => x == y,
        (InstructionType::Allocg(x), InstructionType::Allocg(y)) => x == y,
        (InstructionType::Gep(n, RegRegImm(_, _, i)), InstructionType::Gep(m, RegRegImm(_, _, j))) => n == m && i == j,
        (InstructionType::Mov(_), InstructionType::Mov(_)) => true,
        (InstructionType::Add(_), InstructionType::Add(_)) => true,
        (InstructionType::Sub(_), InstructionType::Sub(_)) => true,
        (InstructionType::Mul(_), InstructionType::Mul(_)) => true,
        (InstructionType::Div(_), InstructionType::Div(_)) => true,
        (InstructionType::Mod(_), InstructionType::Mod(_)) => true,
        (InstructionType::Shr(_), InstructionType::Shr(_)) => true,
        (InstructionType::Shl(_), InstructionType::Shl(_)) => true,
        (InstructionType::And(_), InstructionType::And(_)) => true,
        (InstructionType::Or(_), InstructionType::Or(_)) => true,
        (InstructionType::Xor(_), InstructionType::Xor(_)) => true,
        (InstructionType::Neg(_), InstructionType::Neg(_)) => true,
        (InstructionType::Lt(_), InstructionType::Lt(_)) => true,
        (InstructionType::Le(_), InstructionType::Le(_)) => true,
        (InstructionType::Gt(_), InstructionType::Gt(_)) => true,
        (InstructionType::Ge(_), InstructionType::Ge(_)) => true,
        (InstructionType::Eql(_), InstructionType::Eql(_)) => true,
        (InstructionType::Call(_), InstructionType::Call(_)) => true,
        (InstructionType::CallDirect(SymRegs(s, _)), InstructionType::CallDirect(SymRegs(t, _))) => s@ == t@,
        (InstructionType::Arg(x), InstructionType::Arg(y)) => x == y,
        (InstructionType::Ret(_), InstructionType::Ret(_)) => true,
        (InstructionType::Exit(_), InstructionType::Exit(_)) => true,
        (InstructionType::Retr(_), InstructionType::Retr(_)) => true,
        (InstructionType::Jmp(x), InstructionType::Jmp(y)) => x == y,
        (InstructionType::Branch(TerminatorBranch(_, t1, f1)), InstructionType::Branch(TerminatorBranch(_, t2, f2))) => t1 == t2 && f1 == f2,
        (InstructionType::Print(_), InstructionType::Print(_)) => true,
        (InstructionType::SysCall(ImmIRegs(n, _)), InstructionType::SysCall(ImmIRegs(m, _))) => n == m,
        (InstructionType::Phi(_), InstructionType::Phi(_)) => true,
        _ => false,
    }
}

/// The new name of `r`.
pub fn rename_reg(renames: &Vec<(Register, Register)>, r: Register) -> (out: Register)
    ensures
        out == renamed(renames@, r),
{
    let mut i: usize = 0;
    assert(renames@.skip(0) =~= renames@);
    while i < renames.len()
        invariant
            0 <= i <= renames@.len(),
            renamed(renames@, r) == renamed(renames@.skip(i as int), r),
        decreases renames@.len() - i,
    {
        assert(renames@.skip(i as int).drop_first() =~= renames@.skip(i + 1));
        if renames[i].0 == r {
            return renames[i].1;
        }
        i += 1;
    }
    r
}

/// Renames both registers of a pair.
fn rename_pair(renames: &Vec<(Register, Register)>, rr: &mut RegReg)
    ensures
        final(rr).0 == renamed(renames@, old(rr).0),
        final(rr).1 == renamed(renames@, old(rr).1),
{
    rr.0 = rename_reg(renames, rr.0);
    rr.1 = rename_reg(renames, rr.1);
}

/// Renames every register of a list.
fn rename_all(renames: &Vec<(Register, Register)>, regs: &mut Vec<Register>)
    ensures
        final(regs)@ == old(regs)@.map_values(|r: Register| renamed(renames@, r)),
{
    let mut i: usize = 0;
    while i < regs.len()
        invariant
            0 <= i <= regs@.len(),
            regs@.len() == old(regs)@.len(),
            forall|j: int| 0 <= j < i ==> regs@[j] == renamed(renames@, old(regs)@[j]),
            forall|j: int| i <= j < regs@.len() ==> regs@[j] == old(regs)@[j],
        decreases regs@.len() - i,
    {
        let r = rename_reg(renames, regs[i]);
        regs.set(i, r);
        i += 1;
    }
    assert(regs@ =~= old(regs)@.map_values(|r: Register| renamed(renames@, r)));
}

/// A copy of a list of registers.
pub fn copy_regs(regs: &Vec<Register>) -> (out: Vec<Register>)
    ensures
        out@ == regs@,
{
    let mut out: Vec<Register> = Vec::new();
    let mut i: usize = 0;
    while i < regs.len()
        invariant
            0 <= i <= regs@.len(),
            out@ == regs@.take(i as int),
        decreases regs@.len() - i,
    {
        out.push(regs[i]);
        i += 1;
    }
    assert(out@ =~= regs@);
    out
}

impl InstructionType {
    /// Whether the instruction ends its block by leaving it.
    pub fn terminator(&self) -> (r: bool)
        ensures
            r == is_terminator(*self),
    {
        match self {
            InstructionType::Ret(_) | InstructionType::Exit(_) | InstructionType::Retr(_)
            | InstructionType::Jmp(_) | InstructionType::Branch(_) => true,
            _ => false,
        }
    }

    /// The registers the instruction reads.
    pub fn get_regs(&self) -> (r: Vec<Register>)
        ensures
            r@ == regs_of(*self),
    {
        match self {
            InstructionType::Ld(Reg(a)) => vec![*a],
            InstructionType::St(RegReg(a, b)) => vec![*a, *b],
            InstructionType::Mov(Reg(a)) => vec![*a],
            InstructionType::Gep(_, RegRegImm(a, b, _)) => vec![*a, *b],
            InstructionType::Add(RegReg(a, b)) => vec![*a, *b],
            InstructionType::Sub(RegReg(a, b)) => vec![*a, *b],
            InstructionType::Mul(RegReg(a, b)) => vec![*a, *b],
            InstructionType::Div(RegReg(a, b)) => vec![*a, *b],
            InstructionType::Mod(RegReg(a, b)) => vec![*a, *b],
            InstructionType::Shr(RegReg(a, b)) => vec![*a, *b],
            InstructionType::Shl(RegReg(a, b)) => vec![*a, *b],
            InstructionType::And(RegReg(a, b)) => vec![*a, *b],
            InstructionType::Or(RegReg(a, b)) => vec![*a, *b],
            InstructionType::Xor(RegReg(a, b)) => vec![*a, *b],
            InstructionType::Neg(Reg(a)) => vec![*a],
            InstructionType::Lt(RegReg(a, b)) => vec![*a, *b],
            InstructionType::Le(RegReg(a, b)) => vec![*a, *b],
            InstructionType::Gt(RegReg(a, b)) => vec![*a, *b],
            InstructionType::Ge(RegReg(a, b)) => vec![*a, *b],
            InstructionType::Eql(RegReg(a, b)) => vec![*a, *b],
            InstructionType::Call(RegRegs(reg, regs)) => {
                let mut out = copy_regs(regs);
                out.push(*reg);
                out
            },
            InstructionType::CallDirect(SymRegs(_, regs)) => copy_regs(regs),
            InstructionType::Retr(TerminatorReg(reg)) => vec![*reg],
            InstructionType::Branch(TerminatorBranch(reg, _, _)) => vec![*reg],
            InstructionType::Print(Reg(a)) => vec![*a],
            InstructionType::Phi(RegRegs(reg, regs)) => {
                let mut out = copy_regs(regs);
                out.push(*reg);
                out
            },
            InstructionType::SysCall(ImmIRegs(_, regs)) => copy_regs(regs),
            _ => Vec::new(),
        }
    }

    /// Renames the registers the instruction reads: each one that has an entry in
    /// `renames` takes the register of its first entry.
    pub fn rename_regs(&mut self, renames: &Vec<(Register, Register)>)
        ensures
            same_but_regs(*old(self), *final(self)),
            regs_of(*final(self)) == regs_of(*old(self)).map_values(|r: Register| renamed(renames@, r)),
    {
        match self {
            InstructionType::Mov(Reg(reg)) => *reg = rename_reg(renames, *reg),
            InstructionType::Neg(Reg(reg)) => *reg = rename_reg(renames, *reg),
            InstructionType::Print(Reg(reg)) => *reg = rename_reg(renames, *reg),
            InstructionType::Ld(Reg(reg)) => *reg = rename_reg(renames, *reg),
            InstructionType::Branch(TerminatorBranch(reg, _, _)) => *reg = rename_reg(renames, *reg),
            InstructionType::Retr(TerminatorReg(reg)) => *reg = rename_reg(renames, *reg),
            InstructionType::Add(rr) => rename_pair(renames, rr),
            InstructionType::Sub(rr) => rename_pair(renames, rr),
            InstructionType::Mul(rr) => rename_pair(renames, rr),
            InstructionType::Div(rr) => rename_pair(renames, rr),
            InstructionType::Mod(rr) => rename_pair(renames, rr),
            InstructionType::Shr(rr) => rename_pair(renames, rr),
            InstructionType::Shl(rr) => rename_pair(renames, rr),
            InstructionType::And(rr) => rename_pair(renames, rr),
            InstructionType::Or(rr) => rename_pair(renames, rr),
            InstructionType::Xor(rr) => rename_pair(renames, rr),
            InstructionType::Lt(rr) => rename_pair(renames, rr),
            InstructionType::Le(rr) => rename_pair(renames, rr),
            InstructionType::Gt(rr) => rename_pair(renames, rr),
            InstructionType::Ge(rr) => rename_pair(renames, rr),
            InstructionType::St(rr) => rename_pair(renames, rr),
            InstructionType::Eql(rr) => rename_pair(renames, rr),
            InstructionType::Gep(_, RegRegImm(a, b, _)) => {
                *a = rename_reg(renames, *a);
                *b = rename_reg(renames, *b);
            },
            InstructionType::Phi(RegRegs(reg, regs)) => {
                *reg = rename_reg(renames, *reg);
                rename_all(renames, regs);
            },
            InstructionType::Call(RegRegs(reg, regs)) => {
                *reg = rename_reg(renames, *reg);
                rename_all(renames, regs);
            },
            InstructionType::CallDirect(SymRegs(_, regs)) => rename_all(renames, regs),
            InstructionType::SysCall(ImmIRegs(_, regs)) => rename_all(renames, regs),
            _ => {},
        }
        proof {
            assert(regs_of(*self) =~= regs_of(*old(self)).map_values(|r: Register| renamed(renames@, r)));
        }
    }
}

} // verus!
