pub mod backend_ir;
pub mod emit;
pub mod fn_builder;
pub mod inst_selection;
pub mod insts;
pub mod peepholer;
pub mod register_alloc;

use vstd::prelude::*;

use crate::backend::backend_ir::{AsmFunction, AsmProgram};
use crate::backend::fn_builder::{frame_given_back, frame_kept, keeps_a_frame, AsmFunctionBuilder};
use crate::backend::insts::{AsmInstruction, Rd};
use crate::backend::inst_selection::{basic_instruction_selection, selectable, selected_all, stack_of};
use crate::backend::peepholer::{MockDatabase, PeepHoler};
use crate::middleend::inst::{InstructionType, SymRegs};
use crate::middleend::ir::{BasicBlock, Function, Instruction, IrProgram};

verus! {

/// Whether every instruction of `f` has a translation.
pub open spec fn fn_selectable(f: Function) -> bool {
    forall|b: int, i: int| 0 <= b < f.blocks@.len() && 0 <= i < f.blocks@[b].instruction@.len() ==> selectable(
        (#[trigger] f.blocks@[b].instruction@[i]).data,
    )
}

/// Whether a program can be translated: its global code and functions have blocks, and
/// all their instructions have translations.
pub open spec fn program_selectable(p: IrProgram) -> bool {
    &&& p.glob.blocks@.len() > 0
    &&& fn_selectable(p.glob)
    &&& forall|k: int| 0 <= k < p.funcs@.len() ==> (#[trigger] p.funcs@[k]).blocks@.len() > 0 && fn_selectable(p.funcs@[k])
}

/// The start code sets a stack frame of `s` bytes up first and gives it back before a
/// return.
pub open spec fn starts_frame(block: Seq<AsmInstruction>, s: usize) -> bool {
    &&& frame_given_back(block, s)
    &&& block.len() > 0
    &&& block[0] == AsmInstruction::Addi(Rd::Sp, Rd::Sp, 0i64.wrapping_sub(s as i64))
}

/// Translates a program: the first block of its global code starts it, and each of its
/// functions becomes a function of target code.
pub fn asm_compile(ir_program: IrProgram) -> (r: AsmProgram)
    requires
        program_selectable(ir_program),
    ensures
        r.text@.len() == ir_program.funcs@.len(),
        forall|k: int| 0 <= k < r.text@.len() ==> (#[trigger] r.text@[k]).name == ir_program.funcs@[k].name
            && r.text@[k].blocks@.len() == ir_program.funcs@[k].blocks@.len(),
        r.data@.len() == 0,
        forall|k: int| 0 <= k < r.text@.len() ==> keeps_a_frame((#[trigger] r.text@[k]).blocks@),
        exists|s: usize| starts_frame(r.start@, s),
{
    let mut start = asm_func(&ir_program.glob);
    let mut text: Vec<AsmFunction> = Vec::new();
    let mut k: usize = 0;
    while k < ir_program.funcs.len()
        invariant
            0 <= k <= ir_program.funcs@.len(),
            program_selectable(ir_program),
            text@.len() == k,
            forall|m: int| 0 <= m < k ==> (#[trigger] text@[m]).name == ir_program.funcs@[m].name
                && text@[m].blocks@.len() == ir_program.funcs@[m].blocks@.len(),
            forall|m: int| 0 <= m < k ==> keeps_a_frame((#[trigger] text@[m]).blocks@),
            keeps_a_frame(start.blocks@),
        decreases ir_program.funcs@.len() - k,
    {
        let f = asm_func(&ir_program.funcs[k]);
        let ghost t0 = text@;
        text.push(f);
        proof {
            assert forall|m: int| 0 <= m < k + 1 implies keeps_a_frame((#[trigger] text@[m]).blocks@) by {
                if m < k {
                    assert(text@[m] == t0[m]);
                } else {
                    assert(text@[m] == f);
                }
            }
        }
        k += 1;
    }
    let ghost sb = start.blocks@;
    let first = start.blocks.remove(0);
    let ghost fs = choose|s: usize| frame_kept(sb, s);
    proof {
        assert(frame_given_back(sb[0]@, fs));
        assert(first == sb[0]);
        assert(starts_frame(first@, fs));
    }
    let r = AsmProgram { start: first, text, data: Vec::new() };
    assert(starts_frame(r.start@, fs));
    r
}

/// Translates one function.
pub fn asm_func(function: &Function) -> (r: AsmFunction)
    requires
        function.blocks@.len() > 0,
        fn_selectable(*function),
    ensures
        r.name == function.name,
        r.blocks@.len() == function.blocks@.len(),
        keeps_a_frame(r.blocks@),
{
    let mut builder = AsmFunctionBuilder::new(function.name.clone(), function);
    let mut b: usize = 0;
    while b < function.blocks.len()
        invariant
            0 <= b <= function.blocks@.len(),
            fn_selectable(*function),
            builder.blocks@.len() == b,
            builder.name == function.name,
        decreases function.blocks@.len() - b,
    {
        asm_basicblock(&function.blocks[b], &mut builder);
        proof {
            assert forall|i: int| 0 <= i < function.blocks@[b as int].instruction@.len() implies selectable(
                (#[trigger] function.blocks@[b as int].instruction@[i]).data) by {
                assert(selectable(function.blocks@[b as int].instruction@[i].data));
            }
        }
        b += 1;
    }
    let database = MockDatabase {};
    let peephole = PeepHoler::new(&database);
    builder.build(peephole)
}

/// Translates one block into a new block of the builder.
pub fn asm_basicblock(block: &BasicBlock, builder: &mut AsmFunctionBuilder)
    requires
        forall|i: int| 0 <= i < block.instruction@.len() ==> selectable((#[trigger] block.instruction@[i]).data),
    ensures
        final(builder).blocks@.len() == old(builder).blocks@.len() + 1,
        final(builder).name == old(builder).name,
        final(builder).blocks@.drop_last() == old(builder).blocks@,
        final(builder).blocks@.last()@ == selected_all(block.instruction@, old(builder).name, old(builder).stacksize),
        final(builder).stacksize == stack_of(block.instruction@, old(builder).stacksize),
        final(builder).ir_function == old(builder).ir_function,
{
    builder.actual_bb = builder.create_block();
    let ghost s0 = builder.stacksize;
    proof {
        assert(block.instruction@.take(0) =~= Seq::<Instruction>::empty());
    }
    let mut i: usize = 0;
    while i < block.instruction.len()
        invariant
            0 <= i <= block.instruction@.len(),
            builder.blocks@.len() == old(builder).blocks@.len() + 1,
            builder.name == old(builder).name,
            builder.ir_function == old(builder).ir_function,
            s0 == old(builder).stacksize,
            builder.blocks@.drop_last() == old(builder).blocks@,
            builder.blocks@.last()@ == selected_all(block.instruction@.take(i as int), old(builder).name, s0),
            builder.stacksize == stack_of(block.instruction@.take(i as int), s0),
            forall|k: int| 0 <= k < block.instruction@.len() ==> selectable((#[trigger] block.instruction@[k]).data),
        decreases block.instruction@.len() - i,
    {
        basic_instruction_selection(&block.instruction[i], block.instruction[i].id, builder);
        proof {
            let t = block.instruction@.take(i + 1);
            assert(t.drop_last() =~= block.instruction@.take(i as int));
            assert(t.last() == block.instruction@[i as int]);
        }
        i += 1;
    }
    proof {
        assert(block.instruction@.take(block.instruction@.len() as int) =~= block.instruction@);
    }
}

/// Whether the instruction has a translation.
pub fn inst_selectable(i: &InstructionType) -> (r: bool)
    ensures
        r == selectable(*i),
{
    match i {
        InstructionType::Ldc(_) | InstructionType::Allocg(_) | InstructionType::Div(_) | InstructionType::Mod(_)
        | InstructionType::Shr(_) | InstructionType::Shl(_) | InstructionType::And(_) | InstructionType::Or(_)
        | InstructionType::Xor(_) | InstructionType::Ge(_) | InstructionType::Call(_) | InstructionType::Print(_)
        | InstructionType::SysCall(_) | InstructionType::Phi(_) => false,
        InstructionType::CallDirect(SymRegs(_, regs)) => regs.len() < 8,
        _ => true,
    }
}

/// Whether every instruction of the function has a translation.
pub fn function_selectable(f: &Function) -> (r: bool)
    ensures
        r == fn_selectable(*f),
{
    let mut b: usize = 0;
    while b < f.blocks.len()
        invariant
            0 <= b <= f.blocks@.len(),
            forall|bb: int, i: int| 0 <= bb < b && 0 <= i < f.blocks@[bb].instruction@.len() ==> selectable(
                (#[trigger] f.blocks@[bb].instruction@[i]).data,
            ),
        decreases f.blocks@.len() - b,
    {
        let mut i: usize = 0;
        while i < f.blocks[b].instruction.len()
            invariant
                0 <= i <= f.blocks@[b as int].instruction@.len(),
                b < f.blocks@.len(),
                forall|bb: int, k: int| 0 <= bb < b && 0 <= k < f.blocks@[bb].instruction@.len() ==> selectable(
                    (#[trigger] f.blocks@[bb].instruction@[k]).data,
                ),
                forall|k: int| 0 <= k < i ==> selectable((#[trigger] f.blocks@[b as int].instruction@[k]).data),
            decreases f.blocks@[b as int].instruction@.len() - i,
        {
            if !inst_selectable(&f.blocks[b].instruction[i].data) {
                return false;
            }
            i += 1;
        }
        b += 1;
    }
    true
}

/// Whether the program can be translated: what `asm_compile` needs.
pub fn program_is_selectable(p: &IrProgram) -> (r: bool)
    ensures
        r == program_selectable(*p),
{
    if p.glob.blocks.len() == 0 || !function_selectable(&p.glob) {
        return false;
    }
    let mut k: usize = 0;
    while k < p.funcs.len()
        invariant
            0 <= k <= p.funcs@.len(),
            forall|m: int| 0 <= m < k ==> (#[trigger] p.funcs@[m]).blocks@.len() > 0 && fn_selectable(p.funcs@[m]),
        decreases p.funcs@.len() - k,
    {
        if p.funcs[k].blocks.len() == 0 || !function_selectable(&p.funcs[k]) {
            return false;
        }
        k += 1;
    }
    true
}

} // verus!
