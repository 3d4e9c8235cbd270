use vstd::prelude::*;

use crate::backend::backend_ir::{AsmBasicBlock, AsmFunction, AsmProgram};
use crate::backend::insts::{AsmInstruction, Rd};
use crate::frontend::lexer::chars_to_string;
use crate::text::{dec, push_i64, push_str, push_u64, push_usize, signed_dec};

verus! {

/// A register of the target as text.
pub open spec fn rd_text(r: Rd) -> Seq<char> {
    match r {
        Rd::Ir(reg) => "ir=("@ + dec(reg.2 as nat) + ")"@,
        Rd::ArgReg(n) => "a"@ + dec(n as nat),
        Rd::Zero => "zero"@,
        Rd::Sp => "sp"@,
        Rd::Ra => "ra"@,
        Rd::Arch(n) => "x"@ + dec(n as nat),
    }
}

/// An instruction of three operands as text, each operand after an `x`.
pub open spec fn three(name: Seq<char>, a: Seq<char>, b: Seq<char>, c: Seq<char>) -> Seq<char> {
    name + " x"@ + a + ", x"@ + b + ", x"@ + c
}

/// A load or store with an offset as text: `name x<a>, <offset>(x<b>)`.
pub open spec fn offset_text(name: Seq<char>, a: Rd, b: Rd, off: i64) -> Seq<char> {
    name + " x"@ + rd_text(a) + ", "@ + signed_dec(off as int) + "(x"@ + rd_text(b) + ")"@
}

/// An instruction of the target as text.
pub open spec fn asm_text(i: AsmInstruction) -> Seq<char> {
    match i {
        AsmInstruction::Lui(rd, imm) => "lui "@ + rd_text(rd) + ", "@ + signed_dec(imm as int),
        AsmInstruction::Auipc(rd, imm) => "auipc "@ + rd_text(rd) + ", "@ + signed_dec(imm as int),
        AsmInstruction::Jal(rd, off, _) => "jal "@ + rd_text(rd) + ", "@ + signed_dec(off as int),
        AsmInstruction::Jalr(x, y, z) => three("jalr"@, rd_text(x), rd_text(y), signed_dec(z as int)),
        AsmInstruction::Beq(x, y, z, _) => three("beq"@, rd_text(x), rd_text(y), signed_dec(z as int)),
        AsmInstruction::Bne(x, y, z, _) => three("bne"@, rd_text(x), rd_text(y), signed_dec(z as int)),
        AsmInstruction::Blt(x, y, z, _) => three("blt"@, rd_text(x), rd_text(y), signed_dec(z as int)),
        AsmInstruction::Bge(x, y, z, _) => three("bge"@, rd_text(x), rd_text(y), signed_dec(z as int)),
        AsmInstruction::Bltu(x, y, z, _) => three("bltu"@, rd_text(x), rd_text(y), signed_dec(z as int)),
        AsmInstruction::Bgeu(x, y, z, _) => three("bgeu"@, rd_text(x), rd_text(y), signed_dec(z as int)),
        AsmInstruction::Lb(x, y, z) => three("lb"@, rd_text(x), rd_text(y), signed_dec(z as int)),
        AsmInstruction::Lh(x, y, z) => three("lh"@, rd_text(x), rd_text(y), signed_dec(z as int)),
        AsmInstruction::Lw(x, y, z) => three("lw"@, rd_text(x), rd_text(y), signed_dec(z as int)),
        AsmInstruction::Ld(x, y, off) => offset_text("ld"@, x, y, off),
        AsmInstruction::Lbu(x, y, z) => three("lbu"@, rd_text(x), rd_text(y), signed_dec(z as int)),
        AsmInstruction::Lhu(x, y, z) => three("lhu"@, rd_text(x), rd_text(y), signed_dec(z as int)),
        AsmInstruction::Sb(x, y, z) => three("sb"@, rd_text(x), rd_text(y), signed_dec(z as int)),
        AsmInstruction::Sh(x, y, z) => three("sh"@, rd_text(x), rd_text(y), signed_dec(z as int)),
        AsmInstruction::Sw(x, y, z) => three("sw"@, rd_text(x), rd_text(y), signed_dec(z as int)),
        AsmInstruction::Sd(x, y, off) => offset_text("sd"@, x, y, off),
        AsmInstruction::Addi(x, y, z) => "addi x"@ + rd_text(x) + ", x"@ + rd_text(y) + ", "@ + signed_dec(z as int),
        AsmInstruction::Slti(x, y, z) => three("slti"@, rd_text(x), rd_text(y), signed_dec(z as int)),
        AsmInstruction::Sltiu(x, y, z) => three("sltiu"@, rd_text(x), rd_text(y), signed_dec(z as int)),
        AsmInstruction::Xori(x, y, z) => three("xori"@, rd_text(x), rd_text(y), signed_dec(z as int)),
        AsmInstruction::Ori(x, y, z) => three("ori"@, rd_text(x), rd_text(y), signed_dec(z as int)),
        AsmInstruction::Andi(x, y, z) => "andi x"@ + rd_text(x) + ", x"@ + rd_text(y) + ", "@ + signed_dec(z as int),
        AsmInstruction::Slli(x, y, z) => three("slli"@, rd_text(x), rd_text(y), signed_dec(z as int)),
        AsmInstruction::Srli(x, y, z) => three("srli"@, rd_text(x), rd_text(y), signed_dec(z as int)),
        AsmInstruction::Srai(x, y, z) => three("srai"@, rd_text(x), rd_text(y), signed_dec(z as int)),
        AsmInstruction::Add(x, y, z) => three("add"@, rd_text(x), rd_text(y), rd_text(z)),
        AsmInstruction::Mul(x, y, z) => three("mul"@, rd_text(x), rd_text(y), rd_text(z)),
        AsmInstruction::Sub(x, y, z) => three("sub"@, rd_text(x), rd_text(y), rd_text(z)),
        AsmInstruction::Sll(x, y, z) => three("sll"@, rd_text(x), rd_text(y), rd_text(z)),
        AsmInstruction::Srl(x, y, z) => three("srl"@, rd_text(x), rd_text(y), rd_text(z)),
        AsmInstruction::Slt(x, y, z) => three("slt"@, rd_text(x), rd_text(y), rd_text(z)),
        AsmInstruction::Sltu(x, y, z) => three("sltu"@, rd_text(x), rd_text(y), rd_text(z)),
        AsmInstruction::Xor(x, y, z) => three("xor"@, rd_text(x), rd_text(y), rd_text(z)),
        AsmInstruction::Or(x, y, z) => three("or"@, rd_text(x), rd_text(y), rd_text(z)),
        AsmInstruction::And(x, y, z) => three("and"@, rd_text(x), rd_text(y), rd_text(z)),
        AsmInstruction::Sra(x, y, z) => three("sra"@, rd_text(x), rd_text(y), rd_text(z)),
        AsmInstruction::Call(name, _) => "call "@ + name@,
        AsmInstruction::Ret => "ret"@,
        AsmInstruction::Ecall => "ecall"@,
    }
}

/// The instructions of a block, each on a line of its own, indented by four spaces.
pub open spec fn block_lines(b: Seq<AsmInstruction>) -> Seq<char>
    decreases b.len(),
{
    if b.len() == 0 {
        Seq::empty()
    } else {
        block_lines(b.drop_last()) + "\n    "@ + asm_text(b.last())
    }
}

/// The blocks of a function, one after the other.
pub open spec fn blocks_lines(bs: Seq<AsmBasicBlock>) -> Seq<char>
    decreases bs.len(),
{
    if bs.len() == 0 {
        Seq::empty()
    } else {
        blocks_lines(bs.drop_last()) + block_lines(bs.last()@)
    }
}

/// The functions, each under a line with its label.
pub open spec fn functions_lines(fs: Seq<AsmFunction>) -> Seq<char>
    decreases fs.len(),
{
    if fs.len() == 0 {
        Seq::empty()
    } else {
        functions_lines(fs.drop_last()) + "\n"@ + fs.last().name@ + ":"@ + blocks_lines(fs.last().blocks@)
    }
}

/// A program as assembly: the entry label, the start code, the call of `main` and the
/// exit, then the functions; lines end with a newline but the last.
pub open spec fn assembly_text(p: AsmProgram) -> Seq<char> {
    ".global _start\n_start:"@ + block_lines(p.start@) + "\n    call main\n    addi a7, zero, 93\n    ecall"@
        + functions_lines(p.text@)
}

/// Appends a register of the target as text.
fn push_rd(out: &mut Vec<char>, r: Rd)
    ensures
        final(out)@ == old(out)@ + rd_text(r),
{
    match r {
        Rd::Ir(reg) => {
            push_str(out, "ir=(");
            push_usize(out, reg.val());
            push_str(out, ")");
        },
        Rd::ArgReg(n) => {
            push_str(out, "a");
            push_u64(out, n as u64);
        },
        Rd::Zero => push_str(out, "zero"),
        Rd::Sp => push_str(out, "sp"),
        Rd::Ra => push_str(out, "ra"),
        Rd::Arch(n) => {
            push_str(out, "x");
            push_usize(out, n);
        },
    }
    proof {
        assert(out@ =~= old(out)@ + rd_text(r));
    }
}

/// Appends an instruction of three registers as text.
fn push_three_regs(out: &mut Vec<char>, name: &str, a: Rd, b: Rd, c: Rd)
    ensures
        final(out)@ == old(out)@ + three(name@, rd_text(a), rd_text(b), rd_text(c)),
{
    push_str(out, name);
    push_str(out, " x");
    push_rd(out, a);
    push_str(out, ", x");
    push_rd(out, b);
    push_str(out, ", x");
    push_rd(out, c);
    proof {
        assert(out@ =~= old(out)@ + three(name@, rd_text(a), rd_text(b), rd_text(c)));
    }
}

/// Appends an instruction of two registers and a number as text.
fn push_two_regs_imm(out: &mut Vec<char>, name: &str, a: Rd, b: Rd, c: i64)
    ensures
        final(out)@ == old(out)@ + three(name@, rd_text(a), rd_text(b), signed_dec(c as int)),
{
    push_str(out, name);
    push_str(out, " x");
    push_rd(out, a);
    push_str(out, ", x");
    push_rd(out, b);
    push_str(out, ", x");
    push_i64(out, c);
    proof {
        assert(out@ =~= old(out)@ + three(name@, rd_text(a), rd_text(b), signed_dec(c as int)));
    }
}

/// Appends a load or store with an offset as text.
fn push_offset(out: &mut Vec<char>, name: &str, a: Rd, b: Rd, off: i64)
    ensures
        final(out)@ == old(out)@ + offset_text(name@, a, b, off),
{
    push_str(out, name);
    push_str(out, " x");
    push_rd(out, a);
    push_str(out, ", ");
    push_i64(out, off);
    push_str(out, "(x");
    push_rd(out, b);
    push_str(out, ")");
    proof {
        assert(out@ =~= old(out)@ + offset_text(name@, a, b, off));
    }
}

impl AsmInstruction {
    /// Appends the instruction as text.
    #[verifier::rlimit(40)]
    pub fn write_text(&self, out: &mut Vec<char>)
        ensures
            final(out)@ == old(out)@ + asm_text(*self),
    {
        let ghost start = out@;
        match self {
            AsmInstruction::Lui(rd, imm) => {
                push_str(out, "lui ");
                push_rd(out, *rd);
                push_str(out, ", ");
                push_i64(out, *imm);
            },
            AsmInstruction::Auipc(rd, imm) => {
                push_str(out, "auipc ");
                push_rd(out, *rd);
                push_str(out, ", ");
                push_i64(out, *imm);
            },
            AsmInstruction::Jal(rd, off, _) => {
                push_str(out, "jal ");
                push_rd(out, *rd);
                push_str(out, ", ");
                push_i64(out, *off);
            },
            AsmInstruction::Jalr(x, y, z) => push_two_regs_imm(out, "jalr", *x, *y, *z),
            AsmInstruction::Beq(x, y, z, _) => push_two_regs_imm(out, "beq", *x, *y, *z),
            AsmInstruction::Bne(x, y, z, _) => push_two_regs_imm(out, "bne", *x, *y, *z),
            AsmInstruction::Blt(x, y, z, _) => push_two_regs_imm(out, "blt", *x, *y, *z),
            AsmInstruction::Bge(x, y, z, _) => push_two_regs_imm(out, "bge", *x, *y, *z),
            AsmInstruction::Bltu(x, y, z, _) => push_two_regs_imm(out, "bltu", *x, *y, *z),
            AsmInstruction::Bgeu(x, y, z, _) => push_two_regs_imm(out, "bgeu", *x, *y, *z),
            AsmInstruction::Lb(x, y, z) => push_two_regs_imm(out, "lb", *x, *y, *z),
            AsmInstruction::Lh(x, y, z) => push_two_regs_imm(out, "lh", *x, *y, *z),
            AsmInstruction::Lw(x, y, z) => push_two_regs_imm(out, "lw", *x, *y, *z),
            AsmInstruction::Ld(x, y, off) => push_offset(out, "ld", *x, *y, *off),
            AsmInstruction::Lbu(x, y, z) => push_two_regs_imm(out, "lbu", *x, *y, *z),
            AsmInstruction::Lhu(x, y, z) => push_two_regs_imm(out, "lhu", *x, *y, *z),
            AsmInstruction::Sb(x, y, z) => push_two_regs_imm(out, "sb", *x, *y, *z),
            AsmInstruction::Sh(x, y, z) => push_two_regs_imm(out, "sh", *x, *y, *z),
            AsmInstruction::Sw(x, y, z) => push_two_regs_imm(out, "sw", *x, *y, *z),
            AsmInstruction::Sd(x, y, off) => push_offset(out, "sd", *x, *y, *off),
            AsmInstruction::Addi(x, y, z) => {
                push_str(out, "addi x");
                push_rd(out, *x);
                push_str(out, ", x");
                push_rd(out, *y);
                push_str(out, ", ");
                push_i64(out, *z);
            },
            AsmInstruction::Slti(x, y, z) => push_two_regs_imm(out, "slti", *x, *y, *z),
            AsmInstruction::Sltiu(x, y, z) => push_two_regs_imm(out, "sltiu", *x, *y, *z),
            AsmInstruction::Xori(x, y, z) => push_two_regs_imm(out, "xori", *x, *y, *z),
            AsmInstruction::Ori(x, y, z) => push_two_regs_imm(out, "ori", *x, *y, *z),
            AsmInstruction::Andi(x, y, z) => {
                push_str(out, "andi x");
                push_rd(out, *x);
                push_str(out, ", x");
                push_rd(out, *y);
                push_str(out, ", ");
                push_i64(out, *z);
            },
            AsmInstruction::Slli(x, y, z) => push_two_regs_imm(out, "slli", *x, *y, *z),
            AsmInstruction::Srli(x, y, z) => push_two_regs_imm(out, "srli", *x, *y, *z),
            AsmInstruction::Srai(x, y, z) => push_two_regs_imm(out, "srai", *x, *y, *z),
            AsmInstruction::Add(x, y, z) => push_three_regs(out, "add", *x, *y, *z),
            AsmInstruction::Mul(x, y, z) => push_three_regs(out, "mul", *x, *y, *z),
            AsmInstruction::Sub(x, y, z) => push_three_regs(out, "sub", *x, *y, *z),
            AsmInstruction::Sll(x, y, z) => push_three_regs(out, "sll", *x, *y, *z),
            AsmInstruction::Srl(x, y, z) => push_three_regs(out, "srl", *x, *y, *z),
            AsmInstruction::Slt(x, y, z) => push_three_regs(out, "slt", *x, *y, *z),
            AsmInstruction::Sltu(x, y, z) => push_three_regs(out, "sltu", *x, *y, *z),
            AsmInstruction::Xor(x, y, z) => push_three_regs(out, "xor", *x, *y, *z),
            AsmInstruction::Or(x, y, z) => push_three_regs(out, "or", *x, *y, *z),
            AsmInstruction::And(x, y, z) => push_three_regs(out, "and", *x, *y, *z),
            AsmInstruction::Sra(x, y, z) => push_three_regs(out, "sra", *x, *y, *z),
            AsmInstruction::Call(name, _) => {
                push_str(out, "call ");
                push_str(out, name.as_str());
            },
            AsmInstruction::Ret => push_str(out, "ret"),
            AsmInstruction::Ecall => push_str(out, "ecall"),
        }
        proof {
            assert(out@ =~= start + asm_text(*self));
        }
    }

    /// The instruction as text.
    pub fn to_text(&self) -> (s: String)
        ensures
            s@ == asm_text(*self),
    {
        let mut out: Vec<char> = Vec::new();
        self.write_text(&mut out);
        proof {
            assert(out@ =~= asm_text(*self));
        }
        chars_to_string(&out)
    }
}

/// Appends the instructions of a block, each on a line of its own.
fn emit_basicblock(out: &mut Vec<char>, block: &AsmBasicBlock)
    ensures
        final(out)@ == old(out)@ + block_lines(block@),
{
    let ghost start = out@;
    let mut i: usize = 0;
    while i < block.len()
        invariant
            0 <= i <= block@.len(),
            out@ == start + block_lines(block@.take(i as int)),
        decreases block@.len() - i,
    {
        push_str(out, "\n    ");
        block[i].write_text(out);
        proof {
            assert(block@.take(i + 1).drop_last() =~= block@.take(i as int));
            assert(block@.take(i + 1).last() == block@[i as int]);
            assert(out@ =~= start + block_lines(block@.take(i + 1)));
        }
        i += 1;
    }
    proof {
        assert(block@.take(block@.len() as int) =~= block@);
    }
}

/// Appends a function: its label, then its blocks.
fn emit_function(out: &mut Vec<char>, function: &AsmFunction)
    ensures
        final(out)@ == old(out)@ + "\n"@ + function.name@ + ":"@ + blocks_lines(function.blocks@),
{
    push_str(out, "\n");
    push_str(out, function.name.as_str());
    push_str(out, ":");
    let ghost head = out@;
    let mut i: usize = 0;
    while i < function.blocks.len()
        invariant
            0 <= i <= function.blocks@.len(),
            out@ == head + blocks_lines(function.blocks@.take(i as int)),
        decreases function.blocks@.len() - i,
    {
        emit_basicblock(out, &function.blocks[i]);
        proof {
            assert(function.blocks@.take(i + 1).drop_last() =~= function.blocks@.take(i as int));
            assert(function.blocks@.take(i + 1).last() == function.blocks@[i as int]);
            assert(out@ =~= head + blocks_lines(function.blocks@.take(i + 1)));
        }
        i += 1;
    }
    proof {
        assert(function.blocks@.take(function.blocks@.len() as int) =~= function.blocks@);
        assert(out@ =~= old(out)@ + "\n"@ + function.name@ + ":"@ + blocks_lines(function.blocks@));
    }
}

/// The program as assembly text.
pub fn emit_assembly(program: AsmProgram) -> (s: String)
    ensures
        s@ == assembly_text(program),
{
    let mut out: Vec<char> = Vec::new();
    push_str(&mut out, ".global _start\n_start:");
    emit_basicblock(&mut out, &program.start);
    push_str(&mut out, "\n    call main\n    addi a7, zero, 93\n    ecall");
    let ghost head = out@;
    let mut i: usize = 0;
    while i < program.text.len()
        invariant
            0 <= i <= program.text@.len(),
            out@ == head + functions_lines(program.text@.take(i as int)),
        decreases program.text@.len() - i,
    {
        emit_function(&mut out, &program.text[i]);
        proof {
            assert(program.text@.take(i + 1).drop_last() =~= program.text@.take(i as int));
            assert(program.text@.take(i + 1).last() == program.text@[i as int]);
            assert(out@ =~= head + functions_lines(program.text@.take(i + 1)));
        }
        i += 1;
    }
    proof {
        assert(program.text@.take(program.text@.len() as int) =~= program.text@);
        assert(out@ =~= assembly_text(program));
    }
    chars_to_string(&out)
}

} // verus!
