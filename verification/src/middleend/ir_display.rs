use vstd::prelude::*;

use crate::frontend::lexer::chars_to_string;
use crate::middleend::inst::{
    ImmC, ImmI, ImmIRegs, InstructionType, Reg, RegReg, RegRegImm, RegRegs, SymRegs, TerminatorBranch,
    TerminatorJump, TerminatorReg,
};
use crate::middleend::ir::{BasicBlock, Function, Instruction, IrProgram, RegType, Register};
use crate::text::{dec, push_chars, push_i64, push_str, push_u64, push_usize, signed_dec};

verus! {

/// A register as text: `%` and its index in its block.
pub open spec fn reg_text(r: Register) -> Seq<char> {
    seq!['%'] + dec(r.2 as nat)
}

/// Registers as text, one after the other.
pub open spec fn regs_text(rs: Seq<Register>) -> Seq<char>
    decreases rs.len(),
{
    if rs.len() == 0 {
        Seq::empty()
    } else {
        regs_text(rs.drop_last()) + reg_text(rs.last())
    }
}

/// An operation on two registers as text.
pub open spec fn two_regs_text(name: Seq<char>, l: Register, r: Register) -> Seq<char> {
    name + reg_text(l) + " "@ + reg_text(r)
}

/// Whether an instruction has a text.
pub open spec fn displayable(i: InstructionType) -> bool {
    !(i is Allocg || i is Print || i is Phi)
}

/// An instruction as text.
pub open spec fn inst_text(i: InstructionType) -> Seq<char> {
    match i {
        InstructionType::Ldi(ImmI(n)) => "ldi "@ + signed_dec(n as int),
        InstructionType::Ldc(ImmC(c)) => "ldc "@ + seq![c],
        InstructionType::Ld(Reg(r)) => "ld ["@ + reg_text(r) + "]"@,
        InstructionType::St(RegReg(a, v)) => "store ["@ + reg_text(a) + "] "@ + reg_text(v),
        InstructionType::Alloca(ImmI(n)) => "alloca "@ + signed_dec(n as int),
        InstructionType::Mov(Reg(r)) => "mov "@ + reg_text(r),
        InstructionType::Gep(size, RegRegImm(s, x, imm)) => "gep <"@ + dec(size as nat) + "> ["@ + reg_text(s) + "] "@
            + reg_text(x) + " "@ + signed_dec(imm as int),
        InstructionType::Add(RegReg(l, r)) => two_regs_text("add "@, l, r),
        InstructionType::Sub(RegReg(l, r)) => two_regs_text("sub "@, l, r),
        InstructionType::Mul(RegReg(l, r)) => two_regs_text("mul "@, l, r),
        InstructionType::Div(RegReg(l, r)) => two_regs_text("div "@, l, r),
        InstructionType::Mod(RegReg(l, r)) => two_regs_text("mod "@, l, r),
        InstructionType::Shr(RegReg(l, r)) => two_regs_text("shr "@, l, r),
        InstructionType::Shl(RegReg(l, r)) => two_regs_text("shl "@, l, r),
        InstructionType::And(RegReg(l, r)) => two_regs_text("and "@, l, r),
        InstructionType::Or(RegReg(l, r)) => two_regs_text("or "@, l, r),
        InstructionType::Xor(RegReg(l, r)) => two_regs_text("xor "@, l, r),
        InstructionType::Neg(Reg(r)) => "neg "@ + reg_text(r),
        InstructionType::Lt(RegReg(l, r)) => two_regs_text("lt "@, l, r),
        InstructionType::Le(RegReg(l, r)) => two_regs_text("le "@, l, r),
        InstructionType::Gt(RegReg(l, r)) => two_regs_text("gt "@, l, r),
        InstructionType::Ge(RegReg(l, r)) => two_regs_text("ge "@, l, r),
        InstructionType::Eql(RegReg(l, r)) => two_regs_text("eql "@, l, r),
        InstructionType::Call(RegRegs(r, rs)) => "call "@ + reg_text(r) + " ["@ + regs_text(rs@) + "]"@,
        InstructionType::CallDirect(SymRegs(sym, rs)) => "calldirect "@ + sym@ + " ["@ + regs_text(rs@) + "]"@,
        InstructionType::Arg(ImmI(k)) => "arg "@ + signed_dec(k as int),
        InstructionType::Ret(_) => "ret"@,
        InstructionType::Retr(TerminatorReg(r)) => "retr "@ + reg_text(r),
        InstructionType::Jmp(TerminatorJump(to)) => "jmp BB"@ + dec(to as nat),
        InstructionType::Branch(TerminatorBranch(r, t, f)) => "branch "@ + reg_text(r) + " BB"@ + dec(t as nat) + " BB"@
            + dec(f as nat),
        InstructionType::Exit(_) => "exit"@,
        InstructionType::SysCall(ImmIRegs(num, rs)) => "syscall "@ + signed_dec(num as int) + " ["@ + regs_text(rs@)
            + "]"@,
        _ => Seq::empty(),
    }
}

/// A register type as text.
pub open spec fn reg_type_text(t: RegType) -> Seq<char> {
    match t {
        RegType::Void => "void"@,
        RegType::Int => "int"@,
        RegType::Char => "char"@,
    }
}

/// An instruction as text: with the register it defines and its type, unless void.
pub open spec fn instruction_text(i: Instruction) -> Seq<char> {
    if i.reg_type == RegType::Void {
        inst_text(i.data)
    } else {
        reg_text(i.id) + " : "@ + reg_type_text(i.reg_type) + " = "@ + inst_text(i.data)
    }
}

/// The instructions of a block, one per line, each indented by a tab.
pub open spec fn insts_text(is: Seq<Instruction>) -> Seq<char>
    decreases is.len(),
{
    if is.len() == 0 {
        Seq::empty()
    } else {
        insts_text(is.drop_last()) + "\t"@ + instruction_text(is.last()) + "\n"@
    }
}

/// The first `n` blocks, each with its label.
pub open spec fn blocks_text(bs: Seq<BasicBlock>, n: int) -> Seq<char>
    decreases n,
{
    if n <= 0 {
        Seq::empty()
    } else {
        blocks_text(bs, n - 1) + "BB"@ + dec((n - 1) as nat) + ":\n"@ + insts_text(bs[n - 1].instruction@)
    }
}

/// A function as text: its header, then its blocks.
pub open spec fn function_text(f: Function) -> Seq<char> {
    "function "@ + f.name@ + "("@ + dec(f.arg_count as nat) + ") : "@ + reg_type_text(f.ret_type) + " {\n"@ + blocks_text(
        f.blocks@,
        f.blocks@.len() as int,
    ) + "}"@
}

/// Whether every instruction of the function has a text.
pub open spec fn function_displayable(f: Function) -> bool {
    forall|b: int, k: int|
        0 <= b < f.blocks@.len() && 0 <= k < f.blocks@[b].instruction@.len() ==> displayable(
            #[trigger] f.blocks@[b].instruction@[k].data,
        )
}

/// The first `n` functions, each after an empty line.
pub open spec fn functions_text(fs: Seq<Function>, n: int) -> Seq<char>
    decreases n,
{
    if n <= 0 {
        Seq::empty()
    } else {
        functions_text(fs, n - 1) + "\n"@ + function_text(fs[n - 1])
    }
}

/// A program as text: its global code, then its functions.
pub open spec fn program_text(p: IrProgram) -> Seq<char> {
    "global:\n"@ + function_text(p.glob) + functions_text(p.funcs@, p.funcs@.len() as int)
}

/// Appends a register as text.
fn push_reg(out: &mut Vec<char>, r: Register)
    ensures
        final(out)@ == old(out)@ + reg_text(r),
{
    out.push('%');
    push_usize(out, r.val());
    proof {
        assert(out@ =~= old(out)@ + reg_text(r));
    }
}

/// Appends an operation on two registers as text.
fn push_two_regs(out: &mut Vec<char>, name: &str, l: Register, r: Register)
    ensures
        final(out)@ == old(out)@ + two_regs_text(name@, l, r),
{
    push_str(out, name);
    push_reg(out, l);
    push_str(out, " ");
    push_reg(out, r);
    proof {
        assert(out@ =~= old(out)@ + two_regs_text(name@, l, r));
    }
}

/// Appends registers as text, one after the other.
fn push_regs(out: &mut Vec<char>, rs: &Vec<Register>)
    ensures
        final(out)@ == old(out)@ + regs_text(rs@),
{
    let ghost start = out@;
    let mut i: usize = 0;
    while i < rs.len()
        invariant
            0 <= i <= rs@.len(),
            out@ == start + regs_text(rs@.take(i as int)),
        decreases rs@.len() - i,
    {
        push_reg(out, rs[i]);
        proof {
            assert(rs@.take(i + 1).drop_last() =~= rs@.take(i as int));
            assert(out@ =~= start + regs_text(rs@.take(i + 1)));
        }
        i += 1;
    }
    proof {
        assert(rs@.take(rs@.len() as int) =~= rs@);
    }
}

impl InstructionType {
    /// Appends the instruction as text.
    #[verifier::rlimit(40)]
    pub fn write_text(&self, out: &mut Vec<char>)
        requires
            displayable(*self),
        ensures
            final(out)@ == old(out)@ + inst_text(*self),
    {
        let ghost start = out@;
        match self {
            InstructionType::Ldi(ImmI(n)) => {
                push_str(out, "ldi ");
                push_i64(out, *n);
            },
            InstructionType::Ldc(ImmC(c)) => {
                push_str(out, "ldc ");
                out.push(*c);
            },
            InstructionType::Ld(Reg(reg)) => {
                push_str(out, "ld [");
                push_reg(out, *reg);
                push_str(out, "]");
            },
            InstructionType::St(RegReg(addr, val)) => {
                push_str(out, "store [");
                push_reg(out, *addr);
                push_str(out, "] ");
                push_reg(out, *val);
            },
            InstructionType::Alloca(ImmI(n)) => {
                push_str(out, "alloca ");
                push_i64(out, *n);
            },
            InstructionType::Mov(Reg(reg)) => {
                push_str(out, "mov ");
                push_reg(out, *reg);
            },
            InstructionType::Gep(size, RegRegImm(start_reg, index, imm)) => {
                push_str(out, "gep <");
                push_usize(out, *size);
                push_str(out, "> [");
                push_reg(out, *start_reg);
                push_str(out, "] ");
                push_reg(out, *index);
                push_str(out, " ");
                push_i64(out, *imm);
            },
            InstructionType::Add(RegReg(l, r)) => push_two_regs(out, "add ", *l, *r),
            InstructionType::Sub(RegReg(l, r)) => push_two_regs(out, "sub ", *l, *r),
            InstructionType::Mul(RegReg(l, r)) => push_two_regs(out, "mul ", *l, *r),
            InstructionType::Div(RegReg(l, r)) => push_two_regs(out, "div ", *l, *r),
            InstructionType::Mod(RegReg(l, r)) => push_two_regs(out, "mod ", *l, *r),
            InstructionType::Shr(RegReg(l, r)) => push_two_regs(out, "shr ", *l, *r),
            InstructionType::Shl(RegReg(l, r)) => push_two_regs(out, "shl ", *l, *r),
            InstructionType::And(RegReg(l, r)) => push_two_regs(out, "and ", *l, *r),
            InstructionType::Or(RegReg(l, r)) => push_two_regs(out, "or ", *l, *r),
            InstructionType::Xor(RegReg(l, r)) => push_two_regs(out, "xor ", *l, *r),
            InstructionType::Neg(Reg(reg)) => {
                push_str(out, "neg ");
                push_reg(out, *reg);
            },
            InstructionType::Lt(RegReg(l, r)) => push_two_regs(out, "lt ", *l, *r),
            InstructionType::Le(RegReg(l, r)) => push_two_regs(out, "le ", *l, *r),
            InstructionType::Gt(RegReg(l, r)) => push_two_regs(out, "gt ", *l, *r),
            InstructionType::Ge(RegReg(l, r)) => push_two_regs(out, "ge ", *l, *r),
            InstructionType::Eql(RegReg(l, r)) => push_two_regs(out, "eql ", *l, *r),
            InstructionType::Call(RegRegs(reg, regs)) => {
                push_str(out, "call ");
                push_reg(out, *reg);
                push_str(out, " [");
                push_regs(out, regs);
                push_str(out, "]");
            },
            InstructionType::CallDirect(SymRegs(sym, regs)) => {
                push_str(out, "calldirect ");
                push_str(out, sym.as_str());
                push_str(out, " [");
                push_regs(out, regs);
                push_str(out, "]");
            },
            InstructionType::Arg(ImmI(index)) => {
                push_str(out, "arg ");
                push_i64(out, *index);
            },
            InstructionType::Ret(_) => push_str(out, "ret"),
            InstructionType::Retr(TerminatorReg(reg)) => {
                push_str(out, "retr ");
                push_reg(out, *reg);
            },
            InstructionType::Jmp(TerminatorJump(to)) => {
                push_str(out, "jmp BB");
                push_usize(out, *to);
            },
            InstructionType::Branch(TerminatorBranch(reg, true_bb, false_bb)) => {
                push_str(out, "branch ");
                push_reg(out, *reg);
                push_str(out, " BB");
                push_usize(out, *true_bb);
                push_str(out, " BB");
                push_usize(out, *false_bb);
            },
            InstructionType::Exit(_) => push_str(out, "exit"),
            InstructionType::SysCall(ImmIRegs(num, regs)) => {
                push_str(out, "syscall ");
                push_i64(out, *num);
                push_str(out, " [");
                push_regs(out, regs);
                push_str(out, "]");
            },
            _ => {},
        }
        proof {
            assert(out@ =~= start + inst_text(*self));
        }
    }

    /// The instruction as text.
    pub fn to_text(&self) -> (s: String)
        requires
            displayable(*self),
        ensures
            s@ == inst_text(*self),
    {
        let mut out: Vec<char> = Vec::new();
        self.write_text(&mut out);
        proof {
            assert(out@ =~= inst_text(*self));
        }
        chars_to_string(&out)
    }
}

impl RegType {
    /// Appends the register type as text.
    pub fn write_text(&self, out: &mut Vec<char>)
        ensures
            final(out)@ == old(out)@ + reg_type_text(*self),
    {
        match self {
            RegType::Void => push_str(out, "void"),
            RegType::Int => push_str(out, "int"),
            RegType::Char => push_str(out, "char"),
        }
    }
}

impl Instruction {
    /// Appends the instruction as text, with the register it defines and its type unless
    /// it is void.
    pub fn write_text(&self, out: &mut Vec<char>)
        requires
            displayable(self.data),
        ensures
            final(out)@ == old(out)@ + instruction_text(*self),
    {
        if self.reg_type == RegType::Void {
            self.data.write_text(out);
        } else {
            push_reg(out, self.id);
            push_str(out, " : ");
            self.reg_type.write_text(out);
            push_str(out, " = ");
            self.data.write_text(out);
            proof {
                assert(out@ =~= old(out)@ + instruction_text(*self));
            }
        }
    }
}

impl Function {
    /// Appends the function as text: its header, then each block with its label and
    /// its instructions, one per line.
    pub fn write_text(&self, out: &mut Vec<char>)
        requires
            function_displayable(*self),
        ensures
            final(out)@ == old(out)@ + function_text(*self),
    {
        let ghost start = out@;
        push_str(out, "function ");
        push_str(out, self.name.as_str());
        push_str(out, "(");
        push_u64(out, self.arg_count);
        push_str(out, ") : ");
        self.ret_type.write_text(out);
        push_str(out, " {\n");
        let ghost head = out@;
        let mut i: usize = 0;
        while i < self.blocks.len()
            invariant
                0 <= i <= self.blocks@.len(),
                function_displayable(*self),
                out@ == head + blocks_text(self.blocks@, i as int),
            decreases self.blocks@.len() - i,
        {
            let ghost before = out@;
            push_str(out, "BB");
            push_usize(out, i);
            push_str(out, ":\n");
            let ghost mid = out@;
            let insts = &self.blocks[i].instruction;
            let mut k: usize = 0;
            while k < insts.len()
                invariant
                    0 <= k <= insts@.len(),
                    i < self.blocks@.len(),
                    insts@ == self.blocks@[i as int].instruction@,
                    function_displayable(*self),
                    out@ == mid + insts_text(insts@.take(k as int)),
                decreases insts@.len() - k,
            {
                let ghost b = out@;
                push_str(out, "\t");
                assert(displayable(self.blocks@[i as int].instruction@[k as int].data));
                insts[k].write_text(out);
                push_str(out, "\n");
                proof {
                    assert(insts@.take(k + 1).last() == insts@[k as int]);
                    assert(insts@.take(k + 1).drop_last() =~= insts@.take(k as int));
                    assert(out@ =~= mid + insts_text(insts@.take(k + 1)));
                }
                k += 1;
            }
            proof {
                assert(insts@.take(insts@.len() as int) =~= insts@);
                assert(out@ =~= head + blocks_text(self.blocks@, i + 1));
            }
            i += 1;
        }
        push_str(out, "}");
        proof {
            assert(out@ =~= start + function_text(*self));
        }
    }

    /// The function as text.
    pub fn display(&self) -> (s: String)
        requires
            function_displayable(*self),
        ensures
            s@ == function_text(*self),
    {
        let mut out: Vec<char> = Vec::new();
        self.write_text(&mut out);
        proof {
            assert(out@ =~= function_text(*self));
        }
        chars_to_string(&out)
    }
}

impl IrProgram {
    /// The program as text: its global code, then each function after an empty line.
    pub fn display(&self) -> (s: String)
        requires
            function_displayable(self.glob),
            forall|i: int| 0 <= i < self.funcs@.len() ==> function_displayable(#[trigger] self.funcs@[i]),
        ensures
            s@ == program_text(*self),
    {
        let mut out: Vec<char> = Vec::new();
        push_str(&mut out, "global:\n");
        self.glob.write_text(&mut out);
        let ghost head = out@;
        let mut i: usize = 0;
        while i < self.funcs.len()
            invariant
                0 <= i <= self.funcs@.len(),
                forall|j: int| 0 <= j < self.funcs@.len() ==> function_displayable(#[trigger] self.funcs@[j]),
                out@ == head + functions_text(self.funcs@, i as int),
            decreases self.funcs@.len() - i,
        {
            push_str(&mut out, "\n");
            self.funcs[i].write_text(&mut out);
            proof {
                assert(out@ =~= head + functions_text(self.funcs@, i + 1));
            }
            i += 1;
        }
        proof {
            assert(out@ =~= program_text(*self));
        }
        chars_to_string(&out)
    }
}

/// Whether the instruction has a text.
pub fn has_text(i: &InstructionType) -> (r: bool)
    ensures
        r == displayable(*i),
{
    match i {
        InstructionType::Allocg(_) | InstructionType::Print(_) | InstructionType::Phi(_) => false,
        _ => true,
    }
}

/// Whether every instruction of the function has a text.
pub fn function_has_text(f: &Function) -> (r: bool)
    ensures
        r == function_displayable(*f),
{
    let mut b: usize = 0;
    while b < f.blocks.len()
        invariant
            0 <= b <= f.blocks@.len(),
            forall|bb: int, i: int| 0 <= bb < b && 0 <= i < f.blocks@[bb].instruction@.len() ==> displayable(
                #[trigger] f.blocks@[bb].instruction@[i].data,
            ),
        decreases f.blocks@.len() - b,
    {
        let mut i: usize = 0;
        while i < f.blocks[b].instruction.len()
            invariant
                0 <= i <= f.blocks@[b as int].instruction@.len(),
                b < f.blocks@.len(),
                forall|bb: int, k: int| 0 <= bb < b && 0 <= k < f.blocks@[bb].instruction@.len() ==> displayable(
                    #[trigger] f.blocks@[bb].instruction@[k].data,
                ),
                forall|k: int| 0 <= k < i ==> displayable(#[trigger] f.blocks@[b as int].instruction@[k].data),
            decreases f.blocks@[b as int].instruction@.len() - i,
        {
            if !has_text(&f.blocks[b].instruction[i].data) {
                return false;
            }
            i += 1;
        }
        b += 1;
    }
    true
}

/// Whether every instruction of the program has a text: what `IrProgram::display` needs.
pub fn program_has_text(p: &IrProgram) -> (r: bool)
    ensures
        r == (function_displayable(p.glob) && forall|i: int| 0 <= i < p.funcs@.len() ==> function_displayable(
            #[trigger] p.funcs@[i],
        )),
{
    if !function_has_text(&p.glob) {
        return false;
    }
    let mut k: usize = 0;
    while k < p.funcs.len()
        invariant
            0 <= k <= p.funcs@.len(),
            forall|m: int| 0 <= m < k ==> function_displayable(#[trigger] p.funcs@[m]),
        decreases p.funcs@.len() - k,
    {
        if !function_has_text(&p.funcs[k]) {
            return false;
        }
        k += 1;
    }
    true
}

} // verus!
