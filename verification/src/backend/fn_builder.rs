use vstd::prelude::*;

use crate::backend::backend_ir::{AsmBasicBlock, AsmFunction};
use crate::backend::insts::{reads_of, write_of, AsmInstruction, Offset, Rd};
use crate::backend::peepholer::{Database, PeepHoler};
use crate::backend::register_alloc::{contains_rd, LinearAllocator, RegAllocator, ValueCell};
use crate::middleend::analysis::analysis::analysis_result;
use crate::middleend::analysis::dataflow::DataFlowAnalysis;
use crate::middleend::analysis::lattice::shaped;
use crate::middleend::analysis::live::{liveness_of, LiveRegisterAnalysis};
use crate::middleend::ir::{Function, Register};

verus! {

/// Number of instructions in a sequence of blocks of target code.
pub open spec fn asm_total(blocks: Seq<AsmBasicBlock>) -> int
    decreases blocks.len(),
{
    if blocks.len() == 0 {
        0
    } else {
        asm_total(blocks.drop_last()) + blocks.last()@.len()
    }
}

proof fn lemma_asm_total_update(blocks: Seq<AsmBasicBlock>, j: int, nb: AsmBasicBlock)
    requires
        0 <= j < blocks.len(),
    ensures
        asm_total(blocks.update(j, nb)) == asm_total(blocks) - blocks[j]@.len() + nb@.len(),
    decreases blocks.len(),
{
    if j < blocks.len() - 1 {
        assert(blocks.update(j, nb).drop_last() =~= blocks.drop_last().update(j, nb));
        lemma_asm_total_update(blocks.drop_last(), j, nb);
    } else {
        assert(blocks.update(j, nb).drop_last() =~= blocks.drop_last());
    }
}

proof fn lemma_asm_total_nonneg(blocks: Seq<AsmBasicBlock>)
    ensures
        asm_total(blocks) >= 0,
    decreases blocks.len(),
{
    if blocks.len() > 0 {
        lemma_asm_total_nonneg(blocks.drop_last());
    }
}

/// An instruction reads at most two registers.
pub proof fn lemma_reads_at_most_two(i: AsmInstruction)
    ensures
        reads_of(i).len() <= 2,
{
}

/// How a register of an instruction is placed: a register of the intermediate code that
/// lives in an architectural register is replaced by it; one on the stack, or an
/// allocation read as an address, goes through the spare register `spare`; anything
/// else stays. Gives the code before the instruction, what takes the register's place,
/// and the code after it.
pub open spec fn placed<A: RegAllocator>(a: A, orig: Rd, load: bool, spare: usize) -> (Seq<AsmInstruction>, Rd, Seq<AsmInstruction>) {
    match orig {
        Rd::Ir(x) => match a.spec_location(x) {
            Some(ValueCell::Register(k)) => (Seq::<AsmInstruction>::empty(), Rd::Arch(k), Seq::<AsmInstruction>::empty()),
            Some(ValueCell::StackOffset(off)) => if load {
                (seq![AsmInstruction::Ld(Rd::Arch(spare), Rd::Sp, off)], Rd::Arch(spare), Seq::<AsmInstruction>::empty())
            } else {
                (Seq::<AsmInstruction>::empty(), Rd::Arch(spare), seq![AsmInstruction::Sd(Rd::Arch(spare), Rd::Sp, off)])
            },
            Some(ValueCell::Value(v)) => if load {
                (seq![AsmInstruction::Addi(Rd::Arch(spare), Rd::Sp, v)], Rd::Arch(spare), Seq::<AsmInstruction>::empty())
            } else {
                (Seq::<AsmInstruction>::empty(), orig, Seq::<AsmInstruction>::empty())
            },
            None => (Seq::<AsmInstruction>::empty(), orig, Seq::<AsmInstruction>::empty()),
        },
        _ => (Seq::<AsmInstruction>::empty(), orig, Seq::<AsmInstruction>::empty()),
    }
}

/// Whether placing `orig` takes a spare register.
pub open spec fn takes_spare<A: RegAllocator>(a: A, orig: Rd, load: bool) -> bool {
    match orig {
        Rd::Ir(x) => match a.spec_location(x) {
            Some(ValueCell::StackOffset(_)) => true,
            Some(ValueCell::Value(_)) => load,
            _ => false,
        },
        _ => false,
    }
}

/// Placing the registers `rs` that an instruction reads, in order, taking spare
/// registers from the end of `spares`: the code before the instruction, what takes the
/// registers' places, and the spare registers left.
pub open spec fn placed_reads<A: RegAllocator>(a: A, rs: Seq<Rd>, spares: Seq<usize>) -> (Seq<AsmInstruction>, Seq<Rd>, Seq<usize>)
    decreases rs.len(),
{
    if rs.len() == 0 {
        (Seq::<AsmInstruction>::empty(), Seq::<Rd>::empty(), spares)
    } else {
        let prev = placed_reads(a, rs.drop_last(), spares);
        let p = placed(a, rs.last(), true, prev.2.last());
        (
            prev.0 + p.0,
            prev.1.push(p.1),
            if takes_spare(a, rs.last(), true) { prev.2.drop_last() } else { prev.2 },
        )
    }
}

/// The stack offset, relative to the saving area, of the `k`-th register saved around a
/// call: `k` steps of eight bytes, wrapping as `i64` does.
pub open spec fn save_step(k: nat) -> i64
    decreases k,
{
    if k == 0 {
        0
    } else {
        save_step((k - 1) as nat).wrapping_add(8)
    }
}

/// The stores that save the registers `used` before a call, above `base`.
pub open spec fn saves(used: Seq<usize>, base: i64) -> Seq<AsmInstruction> {
    Seq::new(used.len(), |k: int| AsmInstruction::Sd(Rd::Arch(used[k]), Rd::Sp, base.wrapping_add(save_step(k as nat))))
}

/// The loads that give the registers `used` back after a call, in the reverse order.
pub open spec fn restores(used: Seq<usize>, base: i64) -> Seq<AsmInstruction> {
    Seq::new(
        used.len(),
        |k: int| AsmInstruction::Ld(
            Rd::Arch(used[used.len() - 1 - k]),
            Rd::Sp,
            base.wrapping_add(save_step((used.len() - 1 - k) as nat)),
        ),
    )
}

/// The registers in use that a call saves, none for any other instruction.
pub open spec fn saved_at<A: RegAllocator>(a: A, inst: AsmInstruction) -> Seq<usize> {
    match inst {
        AsmInstruction::Call(_, id) => a.spec_used(id),
        _ => Seq::empty(),
    }
}

/// The code that stands for one instruction once its registers are placed, and the stack
/// its call saving takes: the loads of what it reads through the spare registers 31, 30
/// and 29, the saving of the registers in use around a call above `stacksize`, the
/// instruction itself, their restoring, and the store of what it writes.
pub open spec fn patched<A: RegAllocator>(a: &A, inst0: AsmInstruction, stacksize: i64) -> (Seq<AsmInstruction>, i64) {
    let inst = base_folded(a, inst0);
    let rd = placed_reads(*a, reads_of(inst), seq![29usize, 30, 31]);
    let wr: (Seq<AsmInstruction>, Seq<Rd>) = match write_of(inst) {
        Some(w) => {
            let p = placed(*a, w, false, rd.2.last());
            (p.2, seq![p.1])
        },
        None => (Seq::<AsmInstruction>::empty(), Seq::<Rd>::empty()),
    };
    let used = saved_at(*a, inst);
    (
        rd.0 + saves(used, stacksize) + seq![regs_replaced(inst, rd.1, wr.1)] + restores(used, stacksize) + wr.0,
        save_step(used.len()),
    )
}

/// The code for the instructions `insts` of a block once their registers are placed, and
/// the most stack that the saving around any of their calls takes (at least 0).
pub open spec fn patched_block<A: RegAllocator>(a: &A, insts: Seq<AsmInstruction>, stacksize: i64) -> (Seq<AsmInstruction>, i64)
    decreases insts.len(),
{
    if insts.len() == 0 {
        (Seq::<AsmInstruction>::empty(), 0i64)
    } else {
        let prev = patched_block(a, insts.drop_last(), stacksize);
        let p = patched(a, insts.last(), stacksize);
        (prev.0 + p.0, if p.1 > prev.1 { p.1 } else { prev.1 })
    }
}

/// The target of a jump given as a block index turned into that block's byte offset; an
/// index outside `offsets` stays.
pub open spec fn retarget(offsets: Seq<usize>, off: i64) -> i64 {
    if 0 <= off < offsets.len() {
        offsets[off as int] as i64
    } else {
        off
    }
}

/// A jump or branch with its target turned into a byte offset; any other instruction as
/// it is.
pub open spec fn jump_fixed(offsets: Seq<usize>, inst: AsmInstruction) -> AsmInstruction {
    match inst {
        AsmInstruction::Jal(a, off, s) => AsmInstruction::Jal(a, retarget(offsets, off), s),
        AsmInstruction::Jalr(a, b, off) => AsmInstruction::Jalr(a, b, retarget(offsets, off)),
        AsmInstruction::Beq(a, b, off, s) => AsmInstruction::Beq(a, b, retarget(offsets, off), s),
        AsmInstruction::Blt(a, b, off, s) => AsmInstruction::Blt(a, b, retarget(offsets, off), s),
        AsmInstruction::Bge(a, b, off, s) => AsmInstruction::Bge(a, b, retarget(offsets, off), s),
        AsmInstruction::Bne(a, b, off, s) => AsmInstruction::Bne(a, b, retarget(offsets, off), s),
        other => other,
    }
}

/// A block that ends in a return gives the `s` bytes of the stack frame back just before
/// it.
pub open spec fn frame_given_back(block: Seq<AsmInstruction>, s: usize) -> bool {
    block.len() > 0 && block.last() == AsmInstruction::Ret ==> block.len() >= 2 && block[block.len() - 2]
        == AsmInstruction::Addi(Rd::Sp, Rd::Sp, s as i64)
}

/// The block `b` with the `s` bytes of the stack frame given back before a final return.
pub open spec fn epilogued(b: Seq<AsmInstruction>, s: usize) -> Seq<AsmInstruction> {
    if b.len() > 0 && b.last() == AsmInstruction::Ret {
        b.drop_last().push(AsmInstruction::Addi(Rd::Sp, Rd::Sp, s as i64)).push(AsmInstruction::Ret)
    } else {
        b
    }
}

/// The instruction that sets up a stack frame of `s` bytes.
pub open spec fn prologue_of(s: usize) -> AsmInstruction {
    AsmInstruction::Addi(Rd::Sp, Rd::Sp, 0i64.wrapping_sub(s as i64))
}

/// Block `k` of `pb` with its registers placed by `a` on a frame of `base` bytes, the
/// frame of `s` bytes given back before a return and, in the first block, set up first.
pub open spec fn framed_block<A: RegAllocator>(a: &A, pb: Seq<AsmBasicBlock>, k: int, base: usize, s: usize) -> Seq<AsmInstruction> {
    let e = epilogued(patched_block(a, pb[k]@, base as i64).0, s);
    if k == 0 {
        seq![prologue_of(s)] + e
    } else {
        e
    }
}

/// The most stack that saving registers around a call takes in the first `n` blocks of
/// `pb`, at least 0.
pub open spec fn most_saving<A: RegAllocator>(a: &A, pb: Seq<AsmBasicBlock>, base: usize, n: int) -> i64
    decreases n,
{
    if n <= 0 {
        0
    } else {
        let m = most_saving(a, pb, base, n - 1);
        let x = patched_block(a, pb[n - 1]@, base as i64).1;
        if x > m {
            x
        } else {
            m
        }
    }
}

/// The size of a block in bytes, or the greatest `usize` when it does not fit.
pub open spec fn size_of_block(b: Seq<AsmInstruction>) -> usize {
    if b.len() * 4 <= usize::MAX {
        (b.len() * 4) as usize
    } else {
        usize::MAX
    }
}

/// The byte offset of block `k` of `bs`: the sizes of the blocks before it added up, as
/// far as a `usize` counts.
pub open spec fn offset_at(bs: Seq<Seq<AsmInstruction>>, k: int) -> usize
    decreases k,
{
    if k <= 0 {
        0
    } else {
        let p = offset_at(bs, k - 1);
        let q = size_of_block(bs[k - 1]);
        if p + q <= usize::MAX {
            (p + q) as usize
        } else {
            usize::MAX
        }
    }
}

/// The block `b` with the jump that ends it turned to byte offsets.
pub open spec fn jumps_patched(offsets: Seq<usize>, b: Seq<AsmInstruction>) -> Seq<AsmInstruction> {
    if b.len() == 0 {
        b
    } else {
        b.drop_last().push(jump_fixed(offsets, b.last()))
    }
}

/// Whether `out` is the code built from the peephole-rewritten blocks `pb`: registers
/// placed by `a` on a frame of `base` bytes, the frame grown by the most that saving
/// around a call takes, set up first and given back before each return, and jumps
/// turned into the byte offsets of their blocks.
pub open spec fn built_from<A: RegAllocator>(a: &A, pb: Seq<AsmBasicBlock>, base: usize, out: Seq<AsmBasicBlock>) -> bool {
    let s = base.wrapping_add(most_saving(a, pb, base, pb.len() as int) as usize);
    let fb = Seq::new(pb.len(), |k: int| framed_block(a, pb, k, base, s));
    let offs = Seq::new(pb.len(), |k: int| offset_at(fb, k));
    &&& out.len() == pb.len()
    &&& forall|k: int| 0 <= k < out.len() ==> (#[trigger] out[k])@ == jumps_patched(offs, fb[k])
}

/// Whether some stack frame is set up first and given back before every return.
pub open spec fn keeps_a_frame(blocks: Seq<AsmBasicBlock>) -> bool {
    exists|s: usize| frame_kept(blocks, s)
}

/// The code of a function sets a stack frame of `s` bytes up first and gives it back
/// before every return.
pub open spec fn frame_kept(blocks: Seq<AsmBasicBlock>, s: usize) -> bool {
    &&& blocks.len() > 0
    &&& blocks[0]@.len() > 0
    &&& blocks[0]@[0] == AsmInstruction::Addi(Rd::Sp, Rd::Sp, 0i64.wrapping_sub(s as i64))
    &&& forall|k: int| 0 <= k < blocks.len() ==> frame_given_back(#[trigger] blocks[k]@, s)
}

/// Whether `i` writes a register of the intermediate code that no register of `used` is.
pub open spec fn dead_write(i: AsmInstruction, used: Seq<Rd>) -> bool {
    write_of(i) matches Some(Rd::Ir(x)) && !used.contains(Rd::Ir(x))
}

/// Whether some instruction of `blocks` reads `x`.
pub open spec fn read_in(blocks: Seq<AsmBasicBlock>, x: Rd) -> bool {
    exists|b: int, i: int| 0 <= b < blocks.len() && 0 <= i < blocks[b]@.len() && reads_of(#[trigger] blocks[b]@[i]).contains(x)
}

/// Whether every register of the intermediate code that an instruction of `blocks`
/// writes is read by some instruction of `blocks`.
pub open spec fn no_dead_writes(blocks: Seq<AsmBasicBlock>) -> bool {
    forall|b: int, k: int| 0 <= b < blocks.len() && 0 <= k < blocks[b]@.len() ==> (write_of(#[trigger] blocks[b]@[k]) matches Some(
        Rd::Ir(x),
    ) ==> read_in(blocks, Rd::Ir(x)))
}

/// Builds the target code of one function.
pub struct AsmFunctionBuilder<'a> {
    pub name: String,
    pub stacksize: usize,
    pub actual_bb: usize,
    pub blocks: Vec<AsmBasicBlock>,
    pub liveness: Vec<Vec<Vec<Register>>>,
    pub freetemp: Vec<usize>,
    pub ir_function: &'a Function,
}

/// The spare registers for values on the stack.
fn spare_registers() -> (r: Vec<usize>)
    ensures
        r@ == seq![29usize, 30, 31],
{
    vec![29, 30, 31]
}


/// The base register and offset of an access through `x` at `off`: the stack pointer and
/// the shifted offset when `x` holds an allocation at a known offset, else unchanged.
pub open spec fn rebase<A: RegAllocator>(alloc: &A, x: Register, off: i64) -> (Rd, i64) {
    match alloc.spec_location(x) {
        Some(ValueCell::Value(v)) => (Rd::Sp, off.wrapping_add(v)),
        _ => (Rd::Ir(x), off),
    }
}

/// A load or store with its base register folded as `rebase` says; any other
/// instruction as it is.
pub open spec fn base_folded<A: RegAllocator>(alloc: &A, inst: AsmInstruction) -> AsmInstruction {
    match inst {
        AsmInstruction::Lb(a, Rd::Ir(x), off) => AsmInstruction::Lb(a, rebase(alloc, x, off).0, rebase(alloc, x, off).1),
        AsmInstruction::Lh(a, Rd::Ir(x), off) => AsmInstruction::Lh(a, rebase(alloc, x, off).0, rebase(alloc, x, off).1),
        AsmInstruction::Lw(a, Rd::Ir(x), off) => AsmInstruction::Lw(a, rebase(alloc, x, off).0, rebase(alloc, x, off).1),
        AsmInstruction::Ld(a, Rd::Ir(x), off) => AsmInstruction::Ld(a, rebase(alloc, x, off).0, rebase(alloc, x, off).1),
        AsmInstruction::Lbu(a, Rd::Ir(x), off) => AsmInstruction::Lbu(a, rebase(alloc, x, off).0, rebase(alloc, x, off).1),
        AsmInstruction::Lhu(a, Rd::Ir(x), off) => AsmInstruction::Lhu(a, rebase(alloc, x, off).0, rebase(alloc, x, off).1),
        AsmInstruction::Sb(a, Rd::Ir(x), off) => AsmInstruction::Sb(a, rebase(alloc, x, off).0, rebase(alloc, x, off).1),
        AsmInstruction::Sh(a, Rd::Ir(x), off) => AsmInstruction::Sh(a, rebase(alloc, x, off).0, rebase(alloc, x, off).1),
        AsmInstruction::Sw(a, Rd::Ir(x), off) => AsmInstruction::Sw(a, rebase(alloc, x, off).0, rebase(alloc, x, off).1),
        AsmInstruction::Sd(a, Rd::Ir(x), off) => AsmInstruction::Sd(a, rebase(alloc, x, off).0, rebase(alloc, x, off).1),
        other => other,
    }
}

/// The instruction with the registers it reads replaced by `l` and the one it writes by
/// `w`, in order; calls, returns and the upper-immediate instructions stay as they are.
pub open spec fn regs_replaced(inst: AsmInstruction, l: Seq<Rd>, w: Seq<Rd>) -> AsmInstruction {
    match inst {
        AsmInstruction::Jal(_, off, s) => AsmInstruction::Jal(w[0], off, s),
        AsmInstruction::Jalr(_, _, off) => AsmInstruction::Jalr(w[0], l[0], off),
        AsmInstruction::Beq(_, _, off, s) => AsmInstruction::Beq(l[0], l[1], off, s),
        AsmInstruction::Bne(_, _, off, s) => AsmInstruction::Bne(l[0], l[1], off, s),
        AsmInstruction::Blt(_, _, off, s) => AsmInstruction::Blt(l[0], l[1], off, s),
        AsmInstruction::Bge(_, _, off, s) => AsmInstruction::Bge(l[0], l[1], off, s),
        AsmInstruction::Bltu(_, _, off, s) => AsmInstruction::Bltu(l[0], l[1], off, s),
        AsmInstruction::Bgeu(_, _, off, s) => AsmInstruction::Bgeu(l[0], l[1], off, s),
        AsmInstruction::Addi(_, _, imm) => AsmInstruction::Addi(w[0], l[0], imm),
        AsmInstruction::Slti(_, _, imm) => AsmInstruction::Slti(w[0], l[0], imm),
        AsmInstruction::Sltiu(_, _, imm) => AsmInstruction::Sltiu(w[0], l[0], imm),
        AsmInstruction::Xori(_, _, imm) => AsmInstruction::Xori(w[0], l[0], imm),
        AsmInstruction::Ori(_, _, imm) => AsmInstruction::Ori(w[0], l[0], imm),
        AsmInstruction::Andi(_, _, imm) => AsmInstruction::Andi(w[0], l[0], imm),
        AsmInstruction::Slli(_, _, imm) => AsmInstruction::Slli(w[0], l[0], imm),
        AsmInstruction::Srli(_, _, imm) => AsmInstruction::Srli(w[0], l[0], imm),
        AsmInstruction::Srai(_, _, imm) => AsmInstruction::Srai(w[0], l[0], imm),
        AsmInstruction::Add(_, _, _) => AsmInstruction::Add(w[0], l[0], l[1]),
        AsmInstruction::Mul(_, _, _) => AsmInstruction::Mul(w[0], l[0], l[1]),
        AsmInstruction::Sub(_, _, _) => AsmInstruction::Sub(w[0], l[0], l[1]),
        AsmInstruction::Sll(_, _, _) => AsmInstruction::Sll(w[0], l[0], l[1]),
        AsmInstruction::Srl(_, _, _) => AsmInstruction::Srl(w[0], l[0], l[1]),
        AsmInstruction::Slt(_, _, _) => AsmInstruction::Slt(w[0], l[0], l[1]),
        AsmInstruction::Sltu(_, _, _) => AsmInstruction::Sltu(w[0], l[0], l[1]),
        AsmInstruction::Xor(_, _, _) => AsmInstruction::Xor(w[0], l[0], l[1]),
        AsmInstruction::Or(_, _, _) => AsmInstruction::Or(w[0], l[0], l[1]),
        AsmInstruction::And(_, _, _) => AsmInstruction::And(w[0], l[0], l[1]),
        AsmInstruction::Sra(_, _, _) => AsmInstruction::Sra(w[0], l[0], l[1]),
        AsmInstruction::Lb(_, _, off) => AsmInstruction::Lb(w[0], l[0], off),
        AsmInstruction::Lh(_, _, off) => AsmInstruction::Lh(w[0], l[0], off),
        AsmInstruction::Lw(_, _, off) => AsmInstruction::Lw(w[0], l[0], off),
        AsmInstruction::Ld(_, _, off) => AsmInstruction::Ld(w[0], l[0], off),
        AsmInstruction::Lbu(_, _, off) => AsmInstruction::Lbu(w[0], l[0], off),
        AsmInstruction::Lhu(_, _, off) => AsmInstruction::Lhu(w[0], l[0], off),
        AsmInstruction::Sb(_, _, off) => AsmInstruction::Sb(l[0], l[1], off),
        AsmInstruction::Sh(_, _, off) => AsmInstruction::Sh(l[0], l[1], off),
        AsmInstruction::Sw(_, _, off) => AsmInstruction::Sw(l[0], l[1], off),
        AsmInstruction::Sd(_, _, off) => AsmInstruction::Sd(l[0], l[1], off),
        other => other,
    }
}

/// Replaces the base register of a load or store by the stack pointer when it holds an
/// allocation, adding the allocation's offset.
fn fold_base<A: RegAllocator>(reg_allocator: &A, inst: AsmInstruction) -> (r: AsmInstruction)
    ensures
        r == base_folded(reg_allocator, inst),
{
    match inst {
        AsmInstruction::Lb(a, Rd::Ir(x), off) => match reg_allocator.get_location(x) {
            Some(ValueCell::Value(value)) => AsmInstruction::Lb(a, Rd::Sp, off.wrapping_add(value)),
            _ => AsmInstruction::Lb(a, Rd::Ir(x), off),
        },
        AsmInstruction::Lh(a, Rd::Ir(x), off) => match reg_allocator.get_location(x) {
            Some(ValueCell::Value(value)) => AsmInstruction::Lh(a, Rd::Sp, off.wrapping_add(value)),
            _ => AsmInstruction::Lh(a, Rd::Ir(x), off),
        },
        AsmInstruction::Lw(a, Rd::Ir(x), off) => match reg_allocator.get_location(x) {
            Some(ValueCell::Value(value)) => AsmInstruction::Lw(a, Rd::Sp, off.wrapping_add(value)),
            _ => AsmInstruction::Lw(a, Rd::Ir(x), off),
        },
        AsmInstruction::Ld(a, Rd::Ir(x), off) => match reg_allocator.get_location(x) {
            Some(ValueCell::Value(value)) => AsmInstruction::Ld(a, Rd::Sp, off.wrapping_add(value)),
            _ => AsmInstruction::Ld(a, Rd::Ir(x), off),
        },
        AsmInstruction::Lbu(a, Rd::Ir(x), off) => match reg_allocator.get_location(x) {
            Some(ValueCell::Value(value)) => AsmInstruction::Lbu(a, Rd::Sp, off.wrapping_add(value)),
            _ => AsmInstruction::Lbu(a, Rd::Ir(x), off),
        },
        AsmInstruction::Lhu(a, Rd::Ir(x), off) => match reg_allocator.get_location(x) {
            Some(ValueCell::Value(value)) => AsmInstruction::Lhu(a, Rd::Sp, off.wrapping_add(value)),
            _ => AsmInstruction::Lhu(a, Rd::Ir(x), off),
        },
        AsmInstruction::Sb(a, Rd::Ir(x), off) => match reg_allocator.get_location(x) {
            Some(ValueCell::Value(value)) => AsmInstruction::Sb(a, Rd::Sp, off.wrapping_add(value)),
            _ => AsmInstruction::Sb(a, Rd::Ir(x), off),
        },
        AsmInstruction::Sh(a, Rd::Ir(x), off) => match reg_allocator.get_location(x) {
            Some(ValueCell::Value(value)) => AsmInstruction::Sh(a, Rd::Sp, off.wrapping_add(value)),
            _ => AsmInstruction::Sh(a, Rd::Ir(x), off),
        },
        AsmInstruction::Sw(a, Rd::Ir(x), off) => match reg_allocator.get_location(x) {
            Some(ValueCell::Value(value)) => AsmInstruction::Sw(a, Rd::Sp, off.wrapping_add(value)),
            _ => AsmInstruction::Sw(a, Rd::Ir(x), off),
        },
        AsmInstruction::Sd(a, Rd::Ir(x), off) => match reg_allocator.get_location(x) {
            Some(ValueCell::Value(value)) => AsmInstruction::Sd(a, Rd::Sp, off.wrapping_add(value)),
            _ => AsmInstruction::Sd(a, Rd::Ir(x), off),
        },
        other => other,
    }
}

/// The instruction with the registers it reads replaced by `l` and the one it writes
/// by `w`, in order.
fn with_regs(inst: AsmInstruction, l: &Vec<Rd>, w: &Vec<Rd>) -> (r: AsmInstruction)
    requires
        l@.len() == reads_of(inst).len(),
        w@.len() == if write_of(inst) is Some { 1int } else { 0int },
    ensures
        r == regs_replaced(inst, l@, w@),
{
    match inst {
        AsmInstruction::Jal(_, off, s) => AsmInstruction::Jal(w[0], off, s),
        AsmInstruction::Jalr(_, _, off) => AsmInstruction::Jalr(w[0], l[0], off),
        AsmInstruction::Beq(_, _, off, s) => AsmInstruction::Beq(l[0], l[1], off, s),
        AsmInstruction::Bne(_, _, off, s) => AsmInstruction::Bne(l[0], l[1], off, s),
        AsmInstruction::Blt(_, _, off, s) => AsmInstruction::Blt(l[0], l[1], off, s),
        AsmInstruction::Bge(_, _, off, s) => AsmInstruction::Bge(l[0], l[1], off, s),
        AsmInstruction::Bltu(_, _, off, s) => AsmInstruction::Bltu(l[0], l[1], off, s),
        AsmInstruction::Bgeu(_, _, off, s) => AsmInstruction::Bgeu(l[0], l[1], off, s),
        AsmInstruction::Addi(_, _, imm) => AsmInstruction::Addi(w[0], l[0], imm),
        AsmInstruction::Slti(_, _, imm) => AsmInstruction::Slti(w[0], l[0], imm),
        AsmInstruction::Sltiu(_, _, imm) => AsmInstruction::Sltiu(w[0], l[0], imm),
        AsmInstruction::Xori(_, _, imm) => AsmInstruction::Xori(w[0], l[0], imm),
        AsmInstruction::Ori(_, _, imm) => AsmInstruction::Ori(w[0], l[0], imm),
        AsmInstruction::Andi(_, _, imm) => AsmInstruction::Andi(w[0], l[0], imm),
        AsmInstruction::Slli(_, _, imm) => AsmInstruction::Slli(w[0], l[0], imm),
        AsmInstruction::Srli(_, _, imm) => AsmInstruction::Srli(w[0], l[0], imm),
        AsmInstruction::Srai(_, _, imm) => AsmInstruction::Srai(w[0], l[0], imm),
        AsmInstruction::Add(_, _, _) => AsmInstruction::Add(w[0], l[0], l[1]),
        AsmInstruction::Mul(_, _, _) => AsmInstruction::Mul(w[0], l[0], l[1]),
        AsmInstruction::Sub(_, _, _) => AsmInstruction::Sub(w[0], l[0], l[1]),
        AsmInstruction::Sll(_, _, _) => AsmInstruction::Sll(w[0], l[0], l[1]),
        AsmInstruction::Srl(_, _, _) => AsmInstruction::Srl(w[0], l[0], l[1]),
        AsmInstruction::Slt(_, _, _) => AsmInstruction::Slt(w[0], l[0], l[1]),
        AsmInstruction::Sltu(_, _, _) => AsmInstruction::Sltu(w[0], l[0], l[1]),
        AsmInstruction::Xor(_, _, _) => AsmInstruction::Xor(w[0], l[0], l[1]),
        AsmInstruction::Or(_, _, _) => AsmInstruction::Or(w[0], l[0], l[1]),
        AsmInstruction::And(_, _, _) => AsmInstruction::And(w[0], l[0], l[1]),
        AsmInstruction::Sra(_, _, _) => AsmInstruction::Sra(w[0], l[0], l[1]),
        AsmInstruction::Lb(_, _, off) => AsmInstruction::Lb(w[0], l[0], off),
        AsmInstruction::Lh(_, _, off) => AsmInstruction::Lh(w[0], l[0], off),
        AsmInstruction::Lw(_, _, off) => AsmInstruction::Lw(w[0], l[0], off),
        AsmInstruction::Ld(_, _, off) => AsmInstruction::Ld(w[0], l[0], off),
        AsmInstruction::Lbu(_, _, off) => AsmInstruction::Lbu(w[0], l[0], off),
        AsmInstruction::Lhu(_, _, off) => AsmInstruction::Lhu(w[0], l[0], off),
        AsmInstruction::Sb(_, _, off) => AsmInstruction::Sb(l[0], l[1], off),
        AsmInstruction::Sh(_, _, off) => AsmInstruction::Sh(l[0], l[1], off),
        AsmInstruction::Sw(_, _, off) => AsmInstruction::Sw(l[0], l[1], off),
        AsmInstruction::Sd(_, _, off) => AsmInstruction::Sd(l[0], l[1], off),
        other => other,
    }
}

/// Appends the instructions of `src` to `dst`.
fn append_all(dst: &mut Vec<AsmInstruction>, src: &Vec<AsmInstruction>)
    ensures
        final(dst)@ == old(dst)@ + src@,
{
    let mut i: usize = 0;
    while i < src.len()
        invariant
            0 <= i <= src@.len(),
            dst@ == old(dst)@ + src@.take(i as int),
        decreases src@.len() - i,
    {
        dst.push(src[i].duplicate());
        proof {
            assert(old(dst)@ + src@.take(i + 1) =~= (old(dst)@ + src@.take(i as int)).push(src@[i as int]));
        }
        i += 1;
    }
    assert(src@.take(src@.len() as int) =~= src@);
}

impl<'a> AsmFunctionBuilder<'a> {
    /// A builder for the code of `ir_function`, with its liveness computed.
    pub fn new(name: String, ir_function: &'a Function) -> (b: Self)
        ensures
            b.name == name,
            b.stacksize == 0,
            b.actual_bb == 0,
            b.blocks@.len() == 0,
            b.freetemp@ == seq![29usize, 30, 31],
            *b.ir_function == *ir_function,
            shaped(*ir_function, b.liveness@),
            liveness_of(*ir_function, b.liveness@),
    {
        let mut lifeanalysis = LiveRegisterAnalysis::new(ir_function);
        let ghost d0 = lifeanalysis;
        let liveness = lifeanalysis.analyze();
        proof {
            assert(analysis_result(d0, liveness@));
        }
        Self {
            liveness,
            name,
            stacksize: 0,
            actual_bb: 0,
            blocks: Vec::new(),
            freetemp: spare_registers(),
            ir_function,
        }
    }

    /// Before a final return, gives the stack frame back.
    pub fn add_epilogue(block: AsmBasicBlock, stacksize: usize) -> (r: AsmBasicBlock)
        ensures
            (block@.len() > 0 && block@.last() == AsmInstruction::Ret) ==> r@ == block@.drop_last().push(
                AsmInstruction::Addi(Rd::Sp, Rd::Sp, stacksize as i64)).push(AsmInstruction::Ret),
            !(block@.len() > 0 && block@.last() == AsmInstruction::Ret) ==> r@ == block@,
    {
        let mut block = block;
        let n = block.len();
        if n > 0 {
            if let AsmInstruction::Ret = block[n - 1] {
                block.pop();
                block.push(AsmInstruction::Addi(Rd::Sp, Rd::Sp, stacksize as i64));
                block.push(AsmInstruction::Ret);
            }
        }
        block
    }

    /// Size of a block in bytes.
    pub fn bb_size(block: &AsmBasicBlock) -> (r: usize)
        ensures
            r == size_of_block(block@),
    {
        crate::middleend::analysis::dataflow::saturating_product(block.len(), 4)
    }

    /// Turns the block index in the jump that ends a block into the byte offset of that
    /// block; an index outside `offsets` stays.
    pub fn patch_jumps(offsets: &Vec<usize>, block: AsmBasicBlock) -> (r: AsmBasicBlock)
        ensures
            r@ == if block@.len() == 0 {
                block@
            } else {
                block@.drop_last().push(jump_fixed(offsets@, block@.last()))
            },
    {
        let mut block = block;
        let n = block.len();
        if n == 0 {
            return block;
        }
        let last = block.pop().unwrap();
        let patched = match last {
            AsmInstruction::Jal(a, off, s) => {
                let off2 = if 0 <= off && (off as u64) < (offsets.len() as u64) { offsets[off as usize] as i64 } else { off };
                AsmInstruction::Jal(a, off2, s)
            },
            AsmInstruction::Jalr(a, b, off) => {
                let off2 = if 0 <= off && (off as u64) < (offsets.len() as u64) { offsets[off as usize] as i64 } else { off };
                AsmInstruction::Jalr(a, b, off2)
            },
            AsmInstruction::Beq(a, b, off, s) => {
                let off2 = if 0 <= off && (off as u64) < (offsets.len() as u64) { offsets[off as usize] as i64 } else { off };
                AsmInstruction::Beq(a, b, off2, s)
            },
            AsmInstruction::Blt(a, b, off, s) => {
                let off2 = if 0 <= off && (off as u64) < (offsets.len() as u64) { offsets[off as usize] as i64 } else { off };
                AsmInstruction::Blt(a, b, off2, s)
            },
            AsmInstruction::Bge(a, b, off, s) => {
                let off2 = if 0 <= off && (off as u64) < (offsets.len() as u64) { offsets[off as usize] as i64 } else { off };
                AsmInstruction::Bge(a, b, off2, s)
            },
            AsmInstruction::Bne(a, b, off, s) => {
                let off2 = if 0 <= off && (off as u64) < (offsets.len() as u64) { offsets[off as usize] as i64 } else { off };
                AsmInstruction::Bne(a, b, off2, s)
            },
            other => other,
        };
        block.push(patched);
        block
    }

    /// The register `reg` placed by the allocation: the code before and after the
    /// instruction that reads (`load`) or writes it, and what takes its place.
    pub fn replace_ir_reg<A: RegAllocator>(reg_allocator: &A, reg: Rd, load: bool, tmp_regs: &mut Vec<usize>) -> (r: (
        Vec<AsmInstruction>,
        Rd,
        Vec<AsmInstruction>,
    ))
        requires
            old(tmp_regs)@.len() > 0,
        ensures
            final(tmp_regs)@ == if takes_spare(*reg_allocator, reg, load) {
                old(tmp_regs)@.drop_last()
            } else {
                old(tmp_regs)@
            },
            (r.0@, r.1, r.2@) == placed(*reg_allocator, reg, load, old(tmp_regs)@.last()),
    {
        let e1: Vec<AsmInstruction> = Vec::new();
        let e2: Vec<AsmInstruction> = Vec::new();
        assert(e1@ =~= Seq::<AsmInstruction>::empty());
        assert(e2@ =~= Seq::<AsmInstruction>::empty());
        match reg {
            Rd::Ir(ir_reg) => match reg_allocator.get_location(ir_reg) {
                Some(ValueCell::Register(k)) => (e1, Rd::Arch(k), e2),
                Some(ValueCell::StackOffset(offset)) => {
                    let target = tmp_regs.pop().unwrap();
                    if load {
                        let b = vec![AsmInstruction::Ld(Rd::Arch(target), Rd::Sp, offset)];
                        assert(b@ =~= seq![AsmInstruction::Ld(Rd::Arch(target), Rd::Sp, offset)]);
                        (b, Rd::Arch(target), e2)
                    } else {
                        let a = vec![AsmInstruction::Sd(Rd::Arch(target), Rd::Sp, offset)];
                        assert(a@ =~= seq![AsmInstruction::Sd(Rd::Arch(target), Rd::Sp, offset)]);
                        (e1, Rd::Arch(target), a)
                    }
                },
                Some(ValueCell::Value(value)) => {
                    if load {
                        let target = tmp_regs.pop().unwrap();
                        let b = vec![AsmInstruction::Addi(Rd::Arch(target), Rd::Sp, value)];
                        assert(b@ =~= seq![AsmInstruction::Addi(Rd::Arch(target), Rd::Sp, value)]);
                        (b, Rd::Arch(target), e2)
                    } else {
                        (e1, reg, e2)
                    }
                },
                None => (e1, reg, e2),
            },
            _ => (e1, reg, e2),
        }
    }

    /// Places the registers of one instruction by the allocation and appends it to
    /// `block`, with the loads before it and stores after it that this takes; around a
    /// call, the registers in use are saved on the stack above `stacksize`. Gives back
    /// how many bytes of stack the saving takes.
    pub fn patch_ir_register_inst<A: RegAllocator>(reg_allocator: &A, inst: AsmInstruction, block: &mut AsmBasicBlock, stacksize: Offset) -> (r: Offset)
        ensures
            final(block)@ == old(block)@ + patched(reg_allocator, inst, stacksize).0,
            r == patched(reg_allocator, inst, stacksize).1,
    {
        let ghost inst0 = inst;
        let mut temp = spare_registers();
        let inst = fold_base(reg_allocator, inst);
        let reads = inst.get_reads();
        proof {
            lemma_reads_at_most_two(inst);
        }
        let mut before: Vec<AsmInstruction> = Vec::new();
        let mut load_regs: Vec<Rd> = Vec::new();
        let mut i: usize = 0;
        while i < reads.len()
            invariant
                0 <= i <= reads@.len(),
                reads@.len() <= 2,
                temp@.len() + i >= 3,
                load_regs@.len() == i,
                (before@, load_regs@, temp@) == placed_reads(*reg_allocator, reads@.take(i as int), seq![29usize, 30, 31]),
            decreases reads@.len() - i,
        {
            proof {
                assert(reads@.take(i + 1).drop_last() =~= reads@.take(i as int));
                assert(reads@.take(i + 1).last() == reads@[i as int]);
            }
            let (mut b, x, _a) = Self::replace_ir_reg(reg_allocator, reads[i], true, &mut temp);
            let tmp = b;
            append_all(&mut before, &tmp);
            load_regs.push(x);
            i += 1;
        }
        proof {
            assert(reads@.take(reads@.len() as int) =~= reads@);
        }
        let ghost rd = placed_reads(*reg_allocator, reads@, seq![29usize, 30, 31]);
        let mut after: Vec<AsmInstruction> = Vec::new();
        let mut write_regs: Vec<Rd> = Vec::new();
        match inst.get_write() {
            Some(w) => {
                let (_b, x, a) = Self::replace_ir_reg(reg_allocator, w, false, &mut temp);
                append_all(&mut after, &a);
                write_regs.push(x);
                proof {
                    assert(write_regs@ =~= seq![x]);
                }
            },
            None => {
                proof {
                    assert(after@ =~= Seq::<AsmInstruction>::empty());
                    assert(write_regs@ =~= Seq::<Rd>::empty());
                }
            },
        }
        let ghost wa = after@;
        let call_id = match &inst {
            AsmInstruction::Call(_, id) => Some(*id),
            _ => None,
        };
        let inst = with_regs(inst, &load_regs, &write_regs);
        let ghost b0 = before@;
        let mut stack_added: i64 = 0;
        let ghost used_s: Seq<usize> = Seq::empty();
        if let Some(inst_id) = call_id {
            let used = reg_allocator.get_used(inst_id);
            proof {
                used_s = used@;
            }
            let mut k: usize = 0;
            while k < used.len()
                invariant
                    0 <= k <= used@.len(),
                    used_s == used@,
                    stack_added == save_step(k as nat),
                    before@ == b0 + saves(used@.take(k as int), stacksize),
                    after@ == restores(used@.take(k as int), stacksize) + wa,
                decreases used@.len() - k,
            {
                let place = stacksize.wrapping_add(stack_added);
                before.push(AsmInstruction::Sd(Rd::Arch(used[k]), Rd::Sp, place));
                after.insert(0, AsmInstruction::Ld(Rd::Arch(used[k]), Rd::Sp, place));
                proof {
                    assert(before@ =~= b0 + saves(used@.take(k + 1), stacksize));
                    assert(after@ =~= restores(used@.take(k + 1), stacksize) + wa);
                }
                stack_added = stack_added.wrapping_add(8);
                k += 1;
            }
            proof {
                assert(used@.take(used@.len() as int) =~= used@);
            }
        } else {
            proof {
                assert(saves(used_s, stacksize) =~= Seq::<AsmInstruction>::empty());
                assert(restores(used_s, stacksize) =~= Seq::<AsmInstruction>::empty());
                assert(before@ =~= b0 + saves(used_s, stacksize));
                assert(after@ =~= restores(used_s, stacksize) + wa);
            }
        }
        proof {
            assert(used_s == saved_at(*reg_allocator, base_folded(reg_allocator, inst0)));
        }
        let ghost start = block@;
        append_all(block, &before);
        block.push(inst);
        append_all(block, &after);
        proof {
            assert(block@ =~= start + patched(reg_allocator, inst0, stacksize).0);
        }
        stack_added
    }

    /// Places the registers of every instruction of a block; gives back the new block
    /// and the most stack any call in it saves.
    pub fn patch_ir_registers<A: RegAllocator>(reg_allocator: &A, block: AsmBasicBlock, stack_size: Offset) -> (r: (AsmBasicBlock, Offset))
        ensures
            (r.0@, r.1) == patched_block(reg_allocator, block@, stack_size),
            r.1 >= 0,
    {
        let mut result: AsmBasicBlock = Vec::new();
        let mut biggest_stack: i64 = 0;
        let mut i: usize = 0;
        while i < block.len()
            invariant
                0 <= i <= block@.len(),
                (result@, biggest_stack) == patched_block(reg_allocator, block@.take(i as int), stack_size),
                biggest_stack >= 0,
            decreases block@.len() - i,
        {
            proof {
                assert(block@.take(i + 1).drop_last() =~= block@.take(i as int));
                assert(block@.take(i + 1).last() == block@[i as int]);
            }
            let added = Self::patch_ir_register_inst(reg_allocator, block[i].duplicate(), &mut result, stack_size);
            if added > biggest_stack {
                biggest_stack = added;
            }
            i += 1;
        }
        proof {
            assert(block@.take(block@.len() as int) =~= block@);
        }
        (result, biggest_stack)
    }

    /// Removes the instructions that write a register of the intermediate code that
    /// nothing in `used` reads; tells whether it removed any.
    pub fn remove_unused_bb(block: &mut AsmBasicBlock, used: &Vec<Rd>) -> (r: bool)
        ensures
            final(block)@.len() <= old(block)@.len(),
            r == (final(block)@.len() < old(block)@.len()),
            !r ==> final(block)@ == old(block)@,
            forall|k: int| 0 <= k < final(block)@.len() ==> !dead_write(#[trigger] final(block)@[k], used@),
    {
        let mut change = false;
        let mut index: usize = 0;
        while index < block.len()
            invariant
                0 <= index <= block@.len(),
                block@.len() <= old(block)@.len(),
                change == (block@.len() < old(block)@.len()),
                !change ==> block@ == old(block)@,
                forall|k: int| 0 <= k < index ==> !dead_write(#[trigger] block@[k], used@),
            decreases block@.len() - index,
        {
            let drop = match block[index].get_write() {
                Some(Rd::Ir(rd)) => !contains_rd(used, Rd::Ir(rd)),
                _ => false,
            };
            if drop {
                let ghost pre = block@;
                block.remove(index);
                proof {
                    assert forall|k: int| 0 <= k < index implies !dead_write(#[trigger] block@[k], used@) by {
                        assert(block@[k] == pre[k]);
                    }
                }
                change = true;
            } else {
                index += 1;
            }
        }
        change
    }

    /// The registers that some instruction of `blocks` reads, each once.
    pub fn get_used_regs(blocks: &Vec<AsmBasicBlock>) -> (r: Vec<Rd>)
        ensures
            forall|x: Rd| r@.contains(x) <==> exists|b: int, i: int| 0 <= b < blocks@.len() && 0 <= i < blocks@[b]@.len()
                && reads_of(#[trigger] blocks@[b]@[i]).contains(x),
    {
        let mut out: Vec<Rd> = Vec::new();
        let mut b: usize = 0;
        while b < blocks.len()
            invariant
                0 <= b <= blocks@.len(),
                forall|x: Rd| out@.contains(x) <==> exists|bb: int, i: int| 0 <= bb < b && 0 <= i < blocks@[bb]@.len()
                    && reads_of(#[trigger] blocks@[bb]@[i]).contains(x),
            decreases blocks@.len() - b,
        {
            let mut i: usize = 0;
            while i < blocks[b].len()
                invariant
                    0 <= i <= blocks@[b as int]@.len(),
                    b < blocks@.len(),
                    forall|x: Rd| out@.contains(x) <==> (exists|bb: int, k: int| 0 <= bb < b && 0 <= k < blocks@[bb]@.len()
                        && reads_of(#[trigger] blocks@[bb]@[k]).contains(x)) || (exists|k: int| 0 <= k < i
                        && reads_of(#[trigger] blocks@[b as int]@[k]).contains(x)),
                decreases blocks@[b as int]@.len() - i,
            {
                let reads = blocks[b][i].get_reads();
                let mut j: usize = 0;
                while j < reads.len()
                    invariant
                        0 <= j <= reads@.len(),
                        b < blocks@.len(),
                        i < blocks@[b as int]@.len(),
                        reads@ == reads_of(blocks@[b as int]@[i as int]),
                        forall|x: Rd| out@.contains(x) <==> (exists|bb: int, k: int| 0 <= bb < b && 0 <= k < blocks@[bb]@.len()
                            && reads_of(#[trigger] blocks@[bb]@[k]).contains(x)) || (exists|k: int| 0 <= k < i
                            && reads_of(#[trigger] blocks@[b as int]@[k]).contains(x)) || reads@.take(j as int).contains(x),
                    decreases reads@.len() - j,
                {
                    let x = reads[j];
                    let ghost pre = out@;
                    if !contains_rd(&out, x) {
                        out.push(x);
                    }
                    proof {
                        assert(reads@.take(j + 1) =~= reads@.take(j as int).push(x));
                        assert forall|y: Rd| out@.contains(y) <==> pre.contains(y) || y == x by {
                            if out@.contains(y) && y != x {
                                let m = choose|m: int| 0 <= m < out@.len() && out@[m] == y;
                                assert(pre[m] == y);
                            }
                            if pre.contains(y) {
                                let m = choose|m: int| 0 <= m < pre.len() && pre[m] == y;
                                assert(out@[m] == y);
                            }
                            if y == x && !pre.contains(x) {
                                assert(out@[out@.len() - 1] == x);
                            }
                        }
                        assert forall|y: Rd| reads@.take(j + 1).contains(y) <==> reads@.take(j as int).contains(y) || y == x by {
                            if reads@.take(j + 1).contains(y) && y != x {
                                let m = choose|m: int| 0 <= m < j + 1 && #[trigger] reads@.take(j + 1)[m] == y;
                                assert(reads@.take(j as int)[m] == y);
                            }
                            if reads@.take(j as int).contains(y) {
                                let m = choose|m: int| 0 <= m < j && #[trigger] reads@.take(j as int)[m] == y;
                                assert(reads@.take(j + 1)[m] == y);
                            }
                            if y == x {
                                assert(reads@.take(j + 1)[j as int] == x);
                            }
                        }
                        assert forall|y: Rd| out@.contains(y) <==> (exists|bb: int, k: int| 0 <= bb < b && 0 <= k < blocks@[bb]@.len()
                            && reads_of(#[trigger] blocks@[bb]@[k]).contains(y)) || (exists|k: int| 0 <= k < i
                            && reads_of(#[trigger] blocks@[b as int]@[k]).contains(y)) || reads@.take(j + 1).contains(y) by {
                            assert(pre.contains(y) <==> (exists|bb: int, k: int| 0 <= bb < b && 0 <= k < blocks@[bb]@.len()
                                && reads_of(#[trigger] blocks@[bb]@[k]).contains(y)) || (exists|k: int| 0 <= k < i
                                && reads_of(#[trigger] blocks@[b as int]@[k]).contains(y)) || reads@.take(j as int).contains(y));
                        }
                    }
                    j += 1;
                }
                proof {
                    assert(reads@.take(reads@.len() as int) =~= reads@);
                    assert forall|x: Rd| out@.contains(x) <==> (exists|bb: int, k: int| 0 <= bb < b && 0 <= k < blocks@[bb]@.len()
                        && reads_of(#[trigger] blocks@[bb]@[k]).contains(x)) || (exists|k: int| 0 <= k < i + 1
                        && reads_of(#[trigger] blocks@[b as int]@[k]).contains(x)) by {
                        if exists|k: int| 0 <= k < i + 1 && reads_of(#[trigger] blocks@[b as int]@[k]).contains(x) {
                            let k = choose|k: int| 0 <= k < i + 1 && reads_of(#[trigger] blocks@[b as int]@[k]).contains(x);
                            if k == i {
                                assert(reads@.contains(x));
                            }
                        }
                        if reads@.contains(x) {
                            assert(reads_of(blocks@[b as int]@[i as int]).contains(x));
                        }
                    }
                }
                i += 1;
            }
            proof {
                assert forall|x: Rd| out@.contains(x) <==> exists|bb: int, k: int| 0 <= bb < b + 1 && 0 <= k < blocks@[bb]@.len()
                    && reads_of(#[trigger] blocks@[bb]@[k]).contains(x) by {
                    if exists|bb: int, k: int| 0 <= bb < b + 1 && 0 <= k < blocks@[bb]@.len() && reads_of(#[trigger] blocks@[bb]@[k]).contains(x) {
                        let (bb, k) = choose|bb: int, k: int| 0 <= bb < b + 1 && 0 <= k < blocks@[bb]@.len() && reads_of(#[trigger] blocks@[bb]@[k]).contains(x);
                        if bb == b {
                            assert(reads_of(blocks@[b as int]@[k]).contains(x));
                        }
                    }
                }
            }
            b += 1;
        }
        out
    }

    /// Removes writes to registers nobody reads until none is left; tells whether it
    /// removed any.
    pub fn remove_unused(blocks: &mut Vec<AsmBasicBlock>) -> (r: bool)
        ensures
            final(blocks)@.len() == old(blocks)@.len(),
            asm_total(final(blocks)@) <= asm_total(old(blocks)@),
            r == (asm_total(final(blocks)@) < asm_total(old(blocks)@)),
            no_dead_writes(final(blocks)@),
    {
        let mut change = false;
        loop
            invariant
                blocks@.len() == old(blocks)@.len(),
                asm_total(blocks@) <= asm_total(old(blocks)@),
                change == (asm_total(blocks@) < asm_total(old(blocks)@)),
            ensures
                blocks@.len() == old(blocks)@.len(),
                asm_total(blocks@) <= asm_total(old(blocks)@),
                change == (asm_total(blocks@) < asm_total(old(blocks)@)),
                no_dead_writes(blocks@),
            decreases asm_total(blocks@),
        {
            proof {
                lemma_asm_total_nonneg(blocks@);
            }
            let ghost start = asm_total(blocks@);
            let ghost start_blocks = blocks@;
            let used = Self::get_used_regs(blocks);
            let mut inter = false;
            let mut b: usize = 0;
            while b < blocks.len()
                invariant
                    0 <= b <= blocks@.len(),
                    blocks@.len() == old(blocks)@.len(),
                    asm_total(blocks@) <= start,
                    inter == (asm_total(blocks@) < start),
                    blocks@.len() == start_blocks.len(),
                    !inter ==> forall|k: int| 0 <= k < blocks@.len() ==> (#[trigger] blocks@[k])@ == start_blocks[k]@,
                    forall|bb: int, k: int| 0 <= bb < b && 0 <= k < blocks@[bb]@.len() ==> !dead_write(
                        #[trigger] blocks@[bb]@[k],
                        used@,
                    ),
                decreases blocks@.len() - b,
            {
                let ghost bs = blocks@;
                let mut all: Vec<AsmBasicBlock> = Vec::new();
                std::mem::swap(&mut all, blocks);
                let mut cur = all.remove(b);
                let c = Self::remove_unused_bb(&mut cur, &used);
                all.insert(b, cur);
                std::mem::swap(&mut all, blocks);
                proof {
                    assert(blocks@ =~= bs.update(b as int, blocks@[b as int]));
                    lemma_asm_total_update(bs, b as int, blocks@[b as int]);
                    if c {
                        lemma_asm_total_nonneg(blocks@);
                    }
                }
                inter = inter || c;
                b += 1;
            }
            change = change || inter;
            proof {
                lemma_asm_total_nonneg(blocks@);
            }
            if !inter {
                proof {
                    assert forall|bb: int, k: int| 0 <= bb < blocks@.len() && 0 <= k < blocks@[bb]@.len() implies (write_of(
                        #[trigger] blocks@[bb]@[k],
                    ) matches Some(Rd::Ir(x)) ==> read_in(blocks@, Rd::Ir(x))) by {
                        assert(!dead_write(blocks@[bb]@[k], used@));
                        match write_of(blocks@[bb]@[k]) {
                            Some(Rd::Ir(x)) => {
                                assert(used@.contains(Rd::Ir(x)));
                                let (b2, i2) = choose|b2: int, i2: int| 0 <= b2 < start_blocks.len() && 0 <= i2 < start_blocks[b2]@.len()
                                    && reads_of(#[trigger] start_blocks[b2]@[i2]).contains(Rd::Ir(x));
                                assert(blocks@[b2]@[i2] == start_blocks[b2]@[i2]);
                            },
                            _ => {},
                        }
                    }
                }
                break;
            }
        }
        change
    }

    /// Runs the peephole rewrites and the removal of unused writes until neither
    /// changes anything, at most a number of rounds that grows with the code.
    pub fn peepholer_run<D: Database>(peepholer: &PeepHoler<D>, blocks: &mut Vec<AsmBasicBlock>)
        ensures
            final(blocks)@.len() == old(blocks)@.len(),
            no_dead_writes(final(blocks)@),
    {
        let mut fuel: usize = 2;
        let mut b: usize = 0;
        while b < blocks.len()
            invariant
                0 <= b <= blocks@.len(),
            decreases blocks@.len() - b,
        {
            fuel = fuel.saturating_add(blocks[b].len().saturating_add(blocks[b].len()));
            b += 1;
        }
        loop
            invariant
                blocks@.len() == old(blocks)@.len(),
            ensures
                blocks@.len() == old(blocks)@.len(),
                no_dead_writes(blocks@),
            decreases fuel,
        {
            let mut change = false;
            let mut k: usize = 0;
            while k < blocks.len()
                invariant
                    0 <= k <= blocks@.len(),
                    blocks@.len() == old(blocks)@.len(),
                decreases blocks@.len() - k,
            {
                let mut all: Vec<AsmBasicBlock> = Vec::new();
                std::mem::swap(&mut all, blocks);
                let mut cur = all.remove(k);
                let c = peepholer.pass_basicblock(&mut cur, 2);
                all.insert(k, cur);
                std::mem::swap(&mut all, blocks);
                change = change || c;
                k += 1;
            }
            let c = Self::remove_unused(blocks);
            change = change || c;
            if !change || fuel == 0 {
                break;
            }
            fuel -= 1;
        }
    }

    /// The finished function: peephole rewrites, register allocation, the stack frame
    /// set up at the start and given back at each return, and jumps turned into byte
    /// offsets.
    #[verifier::rlimit(60)]
    #[verifier::spinoff_prover]
    pub fn build<D: Database>(self, peepholer: PeepHoler<D>) -> (r: AsmFunction)
        requires
            self.blocks@.len() > 0,
        ensures
            r.name == self.name,
            r.blocks@.len() == self.blocks@.len(),
            keeps_a_frame(r.blocks@),
            exists|pb: Seq<AsmBasicBlock>, a: LinearAllocator, base: usize| {
                &&& pb.len() == self.blocks@.len()
                &&& no_dead_writes(pb)
                &&& a.wf(self.ir_function.blocks@)
                &&& #[trigger] built_from(&a, pb, base, r.blocks@)
            },
    {
        let mut blocks = self.blocks;
        Self::peepholer_run(&peepholer, &mut blocks);
        let used_regs = Self::get_used_regs(&blocks);
        let reg_allocator = LinearAllocator::new(self.ir_function, used_regs, self.stacksize as i64, self.liveness);
        let stacksize = reg_allocator.get_stacksize();
        let ghost pb = blocks@;
        let ghost ra = reg_allocator;
        let ghost base = stacksize;
        proof {
            assert(pb.len() == self.blocks@.len());
            assert(no_dead_writes(pb));
            assert(ra.wf(self.ir_function.blocks@));
        }
        let mut biggest_addition: i64 = 0;
        let mut patched: Vec<AsmBasicBlock> = Vec::new();
        let mut k: usize = 0;
        while k < blocks.len()
            invariant
                0 <= k <= blocks@.len(),
                pb == blocks@,
                ra == reg_allocator,
                base == stacksize,
                patched@.len() == k,
                biggest_addition >= 0,
                biggest_addition == most_saving(&ra, pb, base, k as int),
                forall|j: int| 0 <= j < k ==> (#[trigger] patched@[j])@ == patched_block(&ra, pb[j]@, base as i64).0,
            decreases blocks@.len() - k,
        {
            let mut cur: AsmBasicBlock = Vec::new();
            append_all(&mut cur, &blocks[k]);
            proof {
                assert(cur@ =~= blocks@[k as int]@);
            }
            let (block, addition) = Self::patch_ir_registers(&reg_allocator, cur, stacksize as i64);
            proof {
                assert(blocks@[k as int] == pb[k as int]);
                assert(most_saving(&ra, pb, base, k + 1) == if addition > most_saving(&ra, pb, base, k as int) {
                    addition
                } else {
                    most_saving(&ra, pb, base, k as int)
                });
            }
            if addition > biggest_addition {
                biggest_addition = addition;
            }
            let ghost before = patched@;
            patched.push(block);
            proof {
                assert forall|j: int| 0 <= j < k + 1 implies (#[trigger] patched@[j])@ == patched_block(&ra, pb[j]@, base as i64).0 by {
                    if j < k {
                        assert(patched@[j] == before[j]);
                    }
                }
            }
            k += 1;
        }
        let stacksize = stacksize.wrapping_add(biggest_addition as usize);
        let ghost pp = patched@;
        let mut with_epilogue: Vec<AsmBasicBlock> = Vec::new();
        let mut k: usize = 0;
        while patched.len() > 0
            invariant
                with_epilogue@.len() + patched@.len() == blocks@.len(),
                pp.len() == blocks@.len(),
                patched@ == pp.skip(with_epilogue@.len() as int),
                forall|j: int| 0 <= j < with_epilogue@.len() ==> frame_given_back(#[trigger] with_epilogue@[j]@, stacksize),
                forall|j: int| 0 <= j < with_epilogue@.len() ==> (#[trigger] with_epilogue@[j])@ == epilogued(pp[j]@, stacksize),
            decreases patched@.len(),
        {
            let ghost n = with_epilogue@.len() as int;
            let cur = patched.remove(0);
            proof {
                assert(cur == pp[n]);
                assert(patched@ =~= pp.skip(n + 1));
            }
            let ghost before = with_epilogue@;
            with_epilogue.push(Self::add_epilogue(cur, stacksize));
            proof {
                assert forall|j: int| 0 <= j < with_epilogue@.len() implies (#[trigger] with_epilogue@[j])@ == epilogued(pp[j]@, stacksize) by {
                    if j < n {
                        assert(with_epilogue@[j] == before[j]);
                    }
                }
            }
        }
        let ghost we = with_epilogue@;
        let mut first = with_epilogue.remove(0);
        let ghost first0 = first@;
        assert(frame_given_back(first0, stacksize));
        first.insert(0, AsmInstruction::Addi(Rd::Sp, Rd::Sp, 0i64.wrapping_sub(stacksize as i64)));
        proof {
            if first@.last() == AsmInstruction::Ret {
                assert(first@.last() == first0.last());
                assert(first@[first@.len() - 2] == first0[first0.len() - 2]);
            }
            assert(first@ =~= seq![prologue_of(stacksize)] + first0);
        }
        with_epilogue.insert(0, first);
        let ghost fb = Seq::new(pb.len(), |j: int| framed_block(&ra, pb, j, base, stacksize));
        proof {
            assert(stacksize == base.wrapping_add(most_saving(&ra, pb, base, pb.len() as int) as usize));
            assert forall|j: int| 0 <= j < with_epilogue@.len() implies (#[trigger] with_epilogue@[j])@ == fb[j] by {
                if j > 0 {
                    assert(with_epilogue@[j] == we[j]);
                }
            }
        }
        let mut offsets: Vec<usize> = Vec::new();
        let mut act: usize = 0;
        let mut k: usize = 0;
        while k < with_epilogue.len()
            invariant
                0 <= k <= with_epilogue@.len(),
                with_epilogue@.len() == pb.len(),
                fb.len() == pb.len(),
                forall|j: int| 0 <= j < with_epilogue@.len() ==> (#[trigger] with_epilogue@[j])@ == fb[j],
                offsets@.len() == k,
                act == offset_at(fb, k as int),
                forall|j: int| 0 <= j < k ==> #[trigger] offsets@[j] == offset_at(fb, j),
            decreases with_epilogue@.len() - k,
        {
            offsets.push(act);
            act = act.saturating_add(Self::bb_size(&with_epilogue[k]));
            proof {
                assert(with_epilogue@[k as int]@ == fb[k as int]);
            }
            k += 1;
        }
        let ghost offs = Seq::new(pb.len(), |j: int| offset_at(fb, j));
        proof {
            assert(offsets@ =~= offs);
        }
        let ghost prologue = AsmInstruction::Addi(Rd::Sp, Rd::Sp, 0i64.wrapping_sub(stacksize as i64));
        let ghost wl = with_epilogue@;
        let mut jumped: Vec<AsmBasicBlock> = Vec::new();
        while with_epilogue.len() > 0
            invariant
                jumped@.len() + with_epilogue@.len() == blocks@.len(),
                wl.len() == blocks@.len(),
                with_epilogue@ == wl.skip(jumped@.len() as int),
                forall|j: int| 0 <= j < wl.len() ==> (#[trigger] wl[j])@ == fb[j],
                offsets@ == offs,
                forall|j: int| 0 <= j < jumped@.len() ==> (#[trigger] jumped@[j])@ == jumps_patched(offs, fb[j]),
                forall|j: int| 0 <= j < with_epilogue@.len() ==> frame_given_back(#[trigger] with_epilogue@[j]@, stacksize),
                forall|j: int| 0 <= j < jumped@.len() ==> frame_given_back(#[trigger] jumped@[j]@, stacksize),
                jumped@.len() == 0 ==> with_epilogue@.len() > 0 && with_epilogue@[0]@.len() > 0
                    && with_epilogue@[0]@[0] == prologue,
                jumped@.len() > 0 ==> jumped@[0]@.len() > 0 && jumped@[0]@[0] == prologue,
                prologue is Addi,
            decreases with_epilogue@.len(),
        {
            let ghost n = jumped@.len() as int;
            let cur = with_epilogue.remove(0);
            let ghost c0 = cur@;
            proof {
                assert(cur == wl[n]);
                assert(with_epilogue@ =~= wl.skip(n + 1));
            }
            let pj = Self::patch_jumps(&offsets, cur);
            proof {
                assert(frame_given_back(c0, stacksize));
                if pj@.len() > 0 && pj@.last() == AsmInstruction::Ret {
                    assert(c0.last() == AsmInstruction::Ret);
                    assert(pj@[pj@.len() - 2] == c0[c0.len() - 2]);
                }
                if jumped@.len() == 0 {
                    if c0.len() >= 2 {
                        assert(pj@[0] == c0[0]);
                    } else {
                        assert(pj@[0] == jump_fixed(offsets@, c0[0]));
                    }
                }
            }
            let ghost j0 = jumped@;
            jumped.push(pj);
            proof {
                if j0.len() > 0 {
                    assert(jumped@[0] == j0[0]);
                } else {
                    assert(jumped@[0] == pj);
                    assert(c0[0] == prologue);
                    if c0.len() == 1 {
                        assert(jump_fixed(offsets@, prologue) == prologue);
                    }
                    assert(pj@[0] == prologue);
                }
                assert forall|j: int| 0 <= j < jumped@.len() implies (#[trigger] jumped@[j])@ == jumps_patched(offs, fb[j]) by {
                    if j < n {
                        assert(jumped@[j] == j0[j]);
                    } else {
                        assert(c0 == fb[n]);
                    }
                }
            }
        }
        proof {
            assert(frame_kept(jumped@, stacksize));
            assert(exists|s: usize| frame_kept(jumped@, s));
            assert(built_from(&ra, pb, base, jumped@));
            assert(pb.len() == self.blocks@.len() && no_dead_writes(pb) && ra.wf(self.ir_function.blocks@)
                && built_from(&ra, pb, base, jumped@));
        }
        let ghost sb = self.blocks@;
        let ghost irb = self.ir_function.blocks@;
        let r = AsmFunction { name: self.name, blocks: jumped };
        proof {
            assert(r.blocks@ == jumped@);
            assert(pb.len() == sb.len() && no_dead_writes(pb) && ra.wf(irb) && built_from(&ra, pb, base, r.blocks@));
        }
        r
    }

    /// Adds an empty block and gives back its index.
    pub fn create_block(&mut self) -> (r: usize)
        ensures
            r == old(self).blocks@.len(),
            final(self).blocks@.len() == old(self).blocks@.len() + 1,
            final(self).blocks@.last()@.len() == 0,
            final(self).blocks@.drop_last() == old(self).blocks@,
            final(self).stacksize == old(self).stacksize,
            final(self).name == old(self).name,
            final(self).ir_function == old(self).ir_function,
            final(self).actual_bb == old(self).actual_bb,
            final(self).freetemp == old(self).freetemp,
            final(self).liveness == old(self).liveness,
    {
        self.blocks.push(Vec::new());
        proof {
            assert(self.blocks@.drop_last() =~= old(self).blocks@);
        }
        self.blocks.len() - 1
    }

    /// Saves `reg` in a new slot of the stack frame and gives back the slot's offset.
    pub fn force_store(&mut self, reg: Rd) -> (r: Offset)
        requires
            old(self).blocks@.len() > 0,
        ensures
            r == old(self).stacksize as i64,
            final(self).stacksize == (if old(self).stacksize + 8 <= usize::MAX { old(self).stacksize + 8 } else { usize::MAX as int }),
            final(self).blocks@.len() == old(self).blocks@.len(),
            final(self).blocks@.last()@ == old(self).blocks@.last()@.push(AsmInstruction::Sd(reg, Rd::Sp, old(self).stacksize as i64)),
            final(self).blocks@.drop_last() == old(self).blocks@.drop_last(),
            final(self).name == old(self).name,
            final(self).ir_function == old(self).ir_function,
            final(self).actual_bb == old(self).actual_bb,
            final(self).freetemp == old(self).freetemp,
            final(self).liveness == old(self).liveness,
    {
        let offset = self.stacksize;
        self.stacksize = self.stacksize.saturating_add(8);
        self.add_instruction(AsmInstruction::Sd(reg, Rd::Sp, offset as i64));
        offset as i64
    }

    /// Reserves `size` bytes of the stack frame and gives back their offset.
    pub fn allocate_stack(&mut self, size: i64) -> (r: Offset)
        ensures
            r == old(self).stacksize as i64,
            final(self).stacksize == old(self).stacksize.wrapping_add(size as usize),
            final(self).blocks == old(self).blocks,
            final(self).name == old(self).name,
            final(self).ir_function == old(self).ir_function,
            final(self).actual_bb == old(self).actual_bb,
            final(self).freetemp == old(self).freetemp,
            final(self).liveness == old(self).liveness,
    {
        let offset = self.stacksize;
        self.stacksize = self.stacksize.wrapping_add(size as usize);
        offset as i64
    }

    /// Makes all spare registers free again.
    pub fn release_temp(&mut self)
        ensures
            final(self).freetemp@ == seq![29usize, 30, 31],
            final(self).blocks == old(self).blocks,
            final(self).stacksize == old(self).stacksize,
            final(self).name == old(self).name,
            final(self).ir_function == old(self).ir_function,
            final(self).actual_bb == old(self).actual_bb,
            final(self).liveness == old(self).liveness,
    {
        self.freetemp = spare_registers();
    }

    /// Appends an instruction to the last block.
    pub fn add_instruction(&mut self, inst: AsmInstruction)
        requires
            old(self).blocks@.len() > 0,
        ensures
            final(self).blocks@.len() == old(self).blocks@.len(),
            final(self).blocks@.last()@ == old(self).blocks@.last()@.push(inst),
            final(self).blocks@.drop_last() == old(self).blocks@.drop_last(),
            final(self).stacksize == old(self).stacksize,
            final(self).name == old(self).name,
            final(self).ir_function == old(self).ir_function,
            final(self).actual_bb == old(self).actual_bb,
            final(self).freetemp == old(self).freetemp,
            final(self).liveness == old(self).liveness,
    {
        let mut last = self.blocks.pop().unwrap();
        last.push(inst);
        self.blocks.push(last);
        proof {
            assert(self.blocks@.drop_last() =~= old(self).blocks@.drop_last());
        }
    }
}

} // verus!
