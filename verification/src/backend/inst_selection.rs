use vstd::prelude::*;

use crate::backend::fn_builder::AsmFunctionBuilder;
use crate::backend::insts::{AsmInstruction, Rd};
use crate::middleend::inst::{
    ImmI, InstructionType, Reg, RegReg, RegRegImm, SymRegs, TerminatorBranch, TerminatorJump,
    TerminatorReg,
};
use crate::middleend::ir::{InstUUID, Instruction, Register};

verus! {

/// Whether an instruction has a translation: not a character constant, a global
/// allocation, a division, modulo, shift or bitwise operation, a comparison for greater
/// or equal, an indirect call, a print, a system call or a phi node, nor a direct call
/// with eight arguments or more.
pub open spec fn selectable(i: InstructionType) -> bool {
    match i {
        InstructionType::Ldc(_) | InstructionType::Allocg(_) | InstructionType::Div(_) | InstructionType::Mod(_)
        | InstructionType::Shr(_) | InstructionType::Shl(_) | InstructionType::And(_) | InstructionType::Or(_)
        | InstructionType::Xor(_) | InstructionType::Ge(_) | InstructionType::Call(_) | InstructionType::Print(_)
        | InstructionType::SysCall(_) | InstructionType::Phi(_) => false,
        InstructionType::CallDirect(SymRegs(_, regs)) => regs@.len() < 8,
        _ => true,
    }
}

/// The target instructions of an instruction `inst` at `place`, in the function `name`,
/// whose stack frame is `stacksize` bytes before it.
pub open spec fn selected(inst: Instruction, place: InstUUID, name: String, stacksize: usize) -> Seq<AsmInstruction> {
    let reg = inst.id;
    match inst.data {
        InstructionType::Ldi(ImmI(imm)) => seq![AsmInstruction::Addi(Rd::Ir(reg), Rd::Zero, imm)],
        InstructionType::Ld(Reg(rs1)) => seq![AsmInstruction::Ld(Rd::Ir(reg), Rd::Ir(rs1), 0)],
        InstructionType::St(RegReg(rs1, rs2)) => seq![AsmInstruction::Sd(Rd::Ir(rs2), Rd::Ir(rs1), 0)],
        InstructionType::Mov(Reg(rs1)) => seq![AsmInstruction::Addi(Rd::Ir(reg), Rd::Ir(rs1), 0)],
        InstructionType::Gep(size, RegRegImm(addr, index, offset)) => seq![
            AsmInstruction::Addi(Rd::Ir(reg), Rd::Zero, size as i64),
            AsmInstruction::Mul(Rd::Ir(reg), Rd::Ir(reg), Rd::Ir(index)),
            AsmInstruction::Add(Rd::Ir(reg), Rd::Ir(addr), Rd::Ir(reg)),
            AsmInstruction::Addi(Rd::Ir(reg), Rd::Ir(reg), offset),
        ],
        InstructionType::Add(RegReg(rs1, rs2)) => seq![AsmInstruction::Add(Rd::Ir(reg), Rd::Ir(rs1), Rd::Ir(rs2))],
        InstructionType::Sub(RegReg(rs1, rs2)) => seq![AsmInstruction::Sub(Rd::Ir(reg), Rd::Ir(rs1), Rd::Ir(rs2))],
        InstructionType::Mul(RegReg(rs1, rs2)) => seq![AsmInstruction::Mul(Rd::Ir(reg), Rd::Ir(rs1), Rd::Ir(rs2))],
        InstructionType::Neg(Reg(rs1)) => seq![AsmInstruction::Sltiu(Rd::Ir(reg), Rd::Ir(rs1), 1)],
        InstructionType::Le(RegReg(rs1, rs2)) => seq![
            AsmInstruction::Addi(Rd::Arch(31), Rd::Ir(rs2), 1),
            AsmInstruction::Slt(Rd::Ir(reg), Rd::Ir(rs1), Rd::Arch(31)),
        ],
        InstructionType::Lt(RegReg(rs1, rs2)) => seq![AsmInstruction::Slt(Rd::Ir(reg), Rd::Ir(rs1), Rd::Ir(rs2))],
        InstructionType::Gt(RegReg(rs1, rs2)) => seq![
            AsmInstruction::Addi(Rd::Arch(31), Rd::Ir(rs2), 1),
            AsmInstruction::Slt(Rd::Ir(reg), Rd::Ir(rs1), Rd::Arch(31)),
            AsmInstruction::Sltiu(Rd::Ir(reg), Rd::Ir(reg), 1),
        ],
        InstructionType::Eql(RegReg(rs1, rs2)) => seq![
            AsmInstruction::Sub(Rd::Ir(reg), Rd::Ir(rs1), Rd::Ir(rs2)),
            AsmInstruction::Sltiu(Rd::Ir(reg), Rd::Ir(reg), 1),
        ],
        InstructionType::CallDirect(SymRegs(sym, regs)) => Seq::new(
            regs@.len(),
            |i: int| AsmInstruction::Addi(Rd::ArgReg(i as u8), Rd::Ir(regs@[i]), 0),
        ) + seq![
            AsmInstruction::Sd(Rd::Ra, Rd::Sp, stacksize as i64),
            AsmInstruction::Call(sym, place),
            AsmInstruction::Ld(Rd::Ra, Rd::Sp, stacksize as i64),
            AsmInstruction::Addi(Rd::Ir(reg), Rd::ArgReg(0), 0),
        ],
        InstructionType::Arg(ImmI(imm)) => seq![AsmInstruction::Addi(Rd::Ir(reg), Rd::ArgReg(imm as u8), 0)],
        InstructionType::Ret(_) => seq![AsmInstruction::Ret],
        InstructionType::Retr(TerminatorReg(r)) => seq![AsmInstruction::Addi(Rd::ArgReg(0), Rd::Ir(r), 0), AsmInstruction::Ret],
        InstructionType::Jmp(TerminatorJump(bb_index)) => seq![AsmInstruction::Jal(Rd::Zero, bb_index as i64, name)],
        InstructionType::Branch(TerminatorBranch(r, _, false_bb)) => seq![AsmInstruction::Beq(Rd::Ir(r), Rd::Zero, false_bb as i64, name)],
        _ => seq![],
    }
}

/// The value of register `r` in the register file `regs`; the zero register reads 0.
pub open spec fn asm_read(regs: spec_fn(Rd) -> i64, r: Rd) -> i64 {
    if r == Rd::Zero {
        0
    } else {
        regs(r)
    }
}

/// The register file `regs` with `v` written to `d`; a write to the zero register is lost.
pub open spec fn asm_write(regs: spec_fn(Rd) -> i64, d: Rd, v: i64) -> spec_fn(Rd) -> i64 {
    |q: Rd| if q == d && d != Rd::Zero { v } else { regs(q) }
}

/// The register file after the RISC-V instruction `i`, for the integer register-register
/// and register-immediate instructions: sums, differences and products wrap around
/// 64 bits, `slt` sets 1 when its first source is less than its second as signed numbers,
/// `sltiu` when its source is less than its immediate as unsigned numbers. Other
/// instructions leave the registers as they are.
pub open spec fn asm_exec(i: AsmInstruction, regs: spec_fn(Rd) -> i64) -> spec_fn(Rd) -> i64 {
    match i {
        AsmInstruction::Add(d, a, b) => asm_write(regs, d, (asm_read(regs, a) + asm_read(regs, b)) as i64),
        AsmInstruction::Sub(d, a, b) => asm_write(regs, d, (asm_read(regs, a) - asm_read(regs, b)) as i64),
        AsmInstruction::Mul(d, a, b) => asm_write(regs, d, (asm_read(regs, a) * asm_read(regs, b)) as i64),
        AsmInstruction::Addi(d, a, k) => asm_write(regs, d, (asm_read(regs, a) + k) as i64),
        AsmInstruction::Slt(d, a, b) => asm_write(regs, d, if asm_read(regs, a) < asm_read(regs, b) { 1 } else { 0 }),
        AsmInstruction::Sltiu(d, a, k) => asm_write(
            regs,
            d,
            if (asm_read(regs, a) as u64) < (k as u64) { 1 } else { 0 },
        ),
        _ => regs,
    }
}

/// The register file after the instructions `insts` in order.
pub open spec fn asm_run(insts: Seq<AsmInstruction>, regs: spec_fn(Rd) -> i64) -> spec_fn(Rd) -> i64
    decreases insts.len(),
{
    if insts.len() == 0 {
        regs
    } else {
        asm_exec(insts.last(), asm_run(insts.drop_last(), regs))
    }
}

proof fn lemma_below_one_unsigned(v: i64)
    ensures
        ((v as u64) < (1i64 as u64)) == (v == 0),
{
    assert(((v as u64) < (1i64 as u64)) == (v == 0)) by (bit_vector);
}

proof fn lemma_difference_zero(a: i64, b: i64)
    ensures
        (((a - b) as i64) == 0) == (a == b),
{
    assert((((a - b) as i64) == 0) == (a == b)) by (bit_vector);
}

/// What the selected code of an arithmetic or comparison instruction leaves in the
/// instruction's register, run on register values `a` and `b` of its left and right
/// operand: their sum, difference or product where it fits, and 1 or 0 as `a < b`,
/// `a <= b`, `a > b` or `a == b` holds.
pub proof fn law_selected_meaning(
    inst: Instruction,
    place: InstUUID,
    name: String,
    stacksize: usize,
    regs: spec_fn(Rd) -> i64,
    x: Register,
    y: Register,
)
    ensures
        ({
            let a = regs(Rd::Ir(x));
            let b = regs(Rd::Ir(y));
            let out = asm_run(selected(inst, place, name, stacksize), regs)(Rd::Ir(inst.id));
            &&& inst.data == InstructionType::Add(RegReg(x, y)) && i64::MIN <= a + b <= i64::MAX ==> out == a + b
            &&& inst.data == InstructionType::Sub(RegReg(x, y)) && i64::MIN <= a - b <= i64::MAX ==> out == a - b
            &&& inst.data == InstructionType::Mul(RegReg(x, y)) && i64::MIN <= a * b <= i64::MAX ==> out == a * b
            &&& inst.data == InstructionType::Lt(RegReg(x, y)) ==> out == if a < b { 1int } else { 0int }
            &&& inst.data == InstructionType::Le(RegReg(x, y)) && b < i64::MAX ==> out == if a <= b { 1int } else { 0int }
            &&& inst.data == InstructionType::Gt(RegReg(x, y)) && b < i64::MAX ==> out == if a > b { 1int } else { 0int }
            &&& inst.data == InstructionType::Eql(RegReg(x, y)) ==> out == if a == b { 1int } else { 0int }
        }),
{
    reveal_with_fuel(asm_run, 4);
    let a = regs(Rd::Ir(x));
    let b = regs(Rd::Ir(y));
    let r = Rd::Ir(inst.id);
    let sel = selected(inst, place, name, stacksize);
    if inst.data == InstructionType::Gt(RegReg(x, y)) && b < i64::MAX {
        let r1 = asm_exec(sel[0], regs);
        assert(sel.take(1).drop_last() =~= Seq::<AsmInstruction>::empty());
        let r2 = asm_exec(sel[1], r1);
        let v = r2(r);
        assert(v == 0 || v == 1);
        lemma_below_one_unsigned(v);
        assert(sel.drop_last().drop_last().drop_last() =~= Seq::<AsmInstruction>::empty());
        assert(sel.drop_last().drop_last() =~= seq![sel[0]]);
        assert(sel.drop_last() =~= seq![sel[0], sel[1]]);
    }
    if inst.data == InstructionType::Le(RegReg(x, y)) && b < i64::MAX {
        assert(sel.drop_last().drop_last() =~= Seq::<AsmInstruction>::empty());
        assert(sel.drop_last() =~= seq![sel[0]]);
    }
    if inst.data == InstructionType::Eql(RegReg(x, y)) {
        let r1 = asm_exec(sel[0], regs);
        lemma_difference_zero(a, b);
        lemma_below_one_unsigned(r1(r));
        assert(sel.drop_last().drop_last() =~= Seq::<AsmInstruction>::empty());
        assert(sel.drop_last() =~= seq![sel[0]]);
    }
    if inst.data is Add || inst.data is Sub || inst.data is Mul || inst.data is Lt {
        assert(sel.drop_last() =~= Seq::<AsmInstruction>::empty());
    }
}

/// The stack frame after the selection of `inst` on a frame of `s` bytes: a call saves
/// the return address in eight more bytes, as far as a `usize` counts.
pub open spec fn stack_after(inst: Instruction, s: usize) -> usize {
    if inst.data is CallDirect {
        if s + 8 <= usize::MAX {
            (s + 8) as usize
        } else {
            usize::MAX
        }
    } else {
        s
    }
}

/// The target code of the instructions `insts` selected one after the other in the
/// function `name`, on a frame of `s` bytes before them.
pub open spec fn selected_all(insts: Seq<Instruction>, name: String, s: usize) -> Seq<AsmInstruction>
    decreases insts.len(),
{
    if insts.len() == 0 {
        Seq::empty()
    } else {
        selected_all(insts.drop_last(), name, s) + selected(
            insts.last(),
            insts.last().id,
            name,
            stack_of(insts.drop_last(), s),
        )
    }
}

/// The stack frame after the selection of the instructions `insts` on a frame of `s`
/// bytes.
pub open spec fn stack_of(insts: Seq<Instruction>, s: usize) -> usize
    decreases insts.len(),
{
    if insts.len() == 0 {
        s
    } else {
        stack_after(insts.last(), stack_of(insts.drop_last(), s))
    }
}

/// Appends the target instructions of `inst` to the last block of `builder`.
pub fn basic_instruction_selection(inst: &Instruction, place: InstUUID, builder: &mut AsmFunctionBuilder)
    requires
        old(builder).blocks@.len() > 0,
        selectable(inst.data),
    ensures
        final(builder).blocks@.len() == old(builder).blocks@.len(),
        final(builder).blocks@.drop_last() == old(builder).blocks@.drop_last(),
        final(builder).blocks@.last()@ == old(builder).blocks@.last()@ + selected(*inst, place, old(builder).name, old(builder).stacksize),
        final(builder).name == old(builder).name,
        final(builder).ir_function == old(builder).ir_function,
        final(builder).stacksize == stack_after(*inst, old(builder).stacksize),
{
    let reg = inst.id;
    let ghost start = builder.blocks@.last()@;
    let ghost name = builder.name;
    let ghost stack = builder.stacksize;
    match &inst.data {
        InstructionType::Ldi(ImmI(imm)) => builder.add_instruction(AsmInstruction::Addi(Rd::Ir(reg), Rd::Zero, *imm)),
        InstructionType::Ld(Reg(rs1)) => builder.add_instruction(AsmInstruction::Ld(Rd::Ir(reg), Rd::Ir(*rs1), 0)),
        InstructionType::St(RegReg(rs1, rs2)) => {
            builder.add_instruction(AsmInstruction::Sd(Rd::Ir(*rs2), Rd::Ir(*rs1), 0));
            builder.release_temp();
        },
        InstructionType::Alloca(_) => {},
        InstructionType::Mov(Reg(rs1)) => builder.add_instruction(AsmInstruction::Addi(Rd::Ir(reg), Rd::Ir(*rs1), 0)),
        InstructionType::Gep(size, RegRegImm(addr, index, offset)) => {
            builder.add_instruction(AsmInstruction::Addi(Rd::Ir(reg), Rd::Zero, *size as i64));
            builder.add_instruction(AsmInstruction::Mul(Rd::Ir(reg), Rd::Ir(reg), Rd::Ir(*index)));
            builder.add_instruction(AsmInstruction::Add(Rd::Ir(reg), Rd::Ir(*addr), Rd::Ir(reg)));
            builder.add_instruction(AsmInstruction::Addi(Rd::Ir(reg), Rd::Ir(reg), *offset));
            builder.release_temp();
        },
        InstructionType::Add(RegReg(rs1, rs2)) => builder.add_instruction(AsmInstruction::Add(Rd::Ir(reg), Rd::Ir(*rs1), Rd::Ir(*rs2))),
        InstructionType::Sub(RegReg(rs1, rs2)) => builder.add_instruction(AsmInstruction::Sub(Rd::Ir(reg), Rd::Ir(*rs1), Rd::Ir(*rs2))),
        InstructionType::Mul(RegReg(rs1, rs2)) => builder.add_instruction(AsmInstruction::Mul(Rd::Ir(reg), Rd::Ir(*rs1), Rd::Ir(*rs2))),
        InstructionType::Neg(Reg(rs1)) => builder.add_instruction(AsmInstruction::Sltiu(Rd::Ir(reg), Rd::Ir(*rs1), 1)),
        InstructionType::Le(RegReg(rs1, rs2)) => {
            builder.add_instruction(AsmInstruction::Addi(Rd::Arch(31), Rd::Ir(*rs2), 1));
            builder.add_instruction(AsmInstruction::Slt(Rd::Ir(reg), Rd::Ir(*rs1), Rd::Arch(31)));
        },
        InstructionType::Lt(RegReg(rs1, rs2)) => builder.add_instruction(AsmInstruction::Slt(Rd::Ir(reg), Rd::Ir(*rs1), Rd::Ir(*rs2))),
        InstructionType::Gt(RegReg(rs1, rs2)) => {
            builder.add_instruction(AsmInstruction::Addi(Rd::Arch(31), Rd::Ir(*rs2), 1));
            builder.add_instruction(AsmInstruction::Slt(Rd::Ir(reg), Rd::Ir(*rs1), Rd::Arch(31)));
            builder.add_instruction(AsmInstruction::Sltiu(Rd::Ir(reg), Rd::Ir(reg), 1));
        },
        InstructionType::Eql(RegReg(rs1, rs2)) => {
            builder.add_instruction(AsmInstruction::Sub(Rd::Ir(reg), Rd::Ir(*rs1), Rd::Ir(*rs2)));
            builder.add_instruction(AsmInstruction::Sltiu(Rd::Ir(reg), Rd::Ir(reg), 1));
        },
        InstructionType::CallDirect(SymRegs(sym, regs)) => {
            let mut i: usize = 0;
            while i < regs.len()
                invariant
                    0 <= i <= regs@.len(),
                    regs@.len() < 8,
                    old(builder).blocks@.len() > 0,
                    builder.blocks@.len() == old(builder).blocks@.len(),
                    builder.blocks@.drop_last() == old(builder).blocks@.drop_last(),
                    builder.blocks@.last()@ == start + Seq::new(i as nat, |k: int| AsmInstruction::Addi(Rd::ArgReg(k as u8), Rd::Ir(regs@[k]), 0)),
                    builder.name == name,
                    builder.stacksize == stack,
                    builder.ir_function == old(builder).ir_function,
                decreases regs@.len() - i,
            {
                builder.add_instruction(AsmInstruction::Addi(Rd::ArgReg(i as u8), Rd::Ir(regs[i]), 0));
                proof {
                    assert(start + Seq::new((i + 1) as nat, |k: int| AsmInstruction::Addi(Rd::ArgReg(k as u8), Rd::Ir(regs@[k]), 0))
                        =~= (start + Seq::new(i as nat, |k: int| AsmInstruction::Addi(Rd::ArgReg(k as u8), Rd::Ir(regs@[k]), 0))).push(
                        AsmInstruction::Addi(Rd::ArgReg(i as u8), Rd::Ir(regs@[i as int]), 0)));
                }
                i += 1;
            }
            let offset = builder.force_store(Rd::Ra);
            builder.add_instruction(AsmInstruction::Call(sym.clone(), place));
            builder.add_instruction(AsmInstruction::Ld(Rd::Ra, Rd::Sp, offset));
            builder.add_instruction(AsmInstruction::Addi(Rd::Ir(reg), Rd::ArgReg(0), 0));
        },
        InstructionType::Arg(ImmI(imm)) => builder.add_instruction(AsmInstruction::Addi(Rd::Ir(reg), Rd::ArgReg(*imm as u8), 0)),
        InstructionType::Ret(_) => builder.add_instruction(AsmInstruction::Ret),
        InstructionType::Exit(_) => {},
        InstructionType::Retr(TerminatorReg(r)) => {
            builder.add_instruction(AsmInstruction::Addi(Rd::ArgReg(0), Rd::Ir(*r), 0));
            builder.add_instruction(AsmInstruction::Ret);
        },
        InstructionType::Jmp(TerminatorJump(bb_index)) => {
            let n = builder.name.clone();
            builder.add_instruction(AsmInstruction::Jal(Rd::Zero, *bb_index as i64, n));
        },
        InstructionType::Branch(TerminatorBranch(r, _, false_bb)) => {
            let n = builder.name.clone();
            builder.add_instruction(AsmInstruction::Beq(Rd::Ir(*r), Rd::Zero, *false_bb as i64, n));
            builder.release_temp();
        },
        _ => {},
    }
    proof {
        assert(builder.blocks@.last()@ =~= start + selected(*inst, place, name, stack));
    }
}

} // verus!
