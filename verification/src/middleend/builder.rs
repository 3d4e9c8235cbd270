use vstd::prelude::*;

use crate::middleend::inst::{is_terminator, InstructionType};
use crate::middleend::ir::{
    global_name, has_function, BBIndex, BasicBlock, Function, InstUUID, Instruction, IrProgram,
    RegType, Register,
};
use crate::middleend::optimalizations::death_store_load::{
    effect_ids, effects_kept, insts_total, lemma_movs_total_nonneg, movs_total, remove_store_load,
};

verus! {

/// Builds a program: global code in one block, and functions.
pub struct IrBuilder {
    pub global: Function,
    pub prog: IrProgram,
}

/// Errors of building a program.
#[derive(Debug, PartialEq, Eq, Clone, Copy, Structural)]
pub enum IrBuilderError {
    BasicBlockNotTerminated,
    NotGlobalBB,
    GlobalBBInFn,
    NotInFunction,
    NotFunction,
    CannotCreateId,
    FuncRedef,
}

impl IrBuilder {
    /// The global code is one block in which each instruction's id is its place; no two
    /// functions share a name.
    pub open spec fn wf(&self) -> bool {
        &&& self.global.blocks@.len() == 1
        &&& self.prog.wf()
        &&& forall|i: int| 0 <= i < self.global.blocks@[0].instruction@.len() ==> (#[trigger] self.global.blocks@[0].instruction@[i]).id
            == InstUUID(true, 0, i as usize)
    }

    /// A builder with empty global code and no functions.
    pub fn default() -> (b: Self)
        ensures
            b.wf(),
            b.global.name@ == "global"@,
            b.global.blocks@[0].instruction@.len() == 0,
            b.prog.funcs@.len() == 0,
    {
        let mut blocks: Vec<BasicBlock> = Vec::new();
        blocks.push(BasicBlock::default());
        IrBuilder {
            global: Function { name: global_name(), arg_count: 0, ret_type: RegType::Void, blocks },
            prog: IrProgram::default(),
        }
    }

    /// The id the next global instruction gets.
    fn get_id(&self) -> (r: InstUUID)
        requires
            self.wf(),
        ensures
            r == InstUUID(true, 0, self.global.blocks@[0].instruction@.len() as usize),
    {
        InstUUID(true, 0, self.global.blocks[0].instruction.len())
    }

    /// Adds a function; fails when a function of the same name was added.
    pub fn add_fn(&mut self, func: Function) -> (r: Result<(), IrBuilderError>)
        requires
            old(self).wf(),
        ensures
            final(self).wf(),
            final(self).global == old(self).global,
            r is Err <==> has_function(old(self).prog.funcs@, func.name@),
            r matches Err(e) ==> e == IrBuilderError::FuncRedef && final(self).prog.funcs == old(self).prog.funcs,
            r is Ok ==> final(self).prog.funcs@ == old(self).prog.funcs@.push(func),
    {
        let mut i: usize = 0;
        while i < self.prog.funcs.len()
            invariant
                0 <= i <= self.prog.funcs@.len(),
                *self == *old(self),
                old(self).wf(),
                forall|k: int| 0 <= k < i ==> (#[trigger] self.prog.funcs@[k]).name@ != func.name@,
            decreases self.prog.funcs@.len() - i,
        {
            if self.prog.funcs[i].name == func.name {
                proof {
                    assert(self.prog.funcs@[i as int].name@ == func.name@);
                }
                return Err(IrBuilderError::FuncRedef);
            }
            i += 1;
        }
        let ghost o = self.prog.funcs@;
        self.prog.funcs.push(func);
        proof {
            assert forall|p: int, q: int| 0 <= p < q < self.prog.funcs@.len() implies (#[trigger] self.prog.funcs@[p]).name@
                != (#[trigger] self.prog.funcs@[q]).name@ by {
                if q == o.len() {
                    assert(self.prog.funcs@[p] == o[p]);
                } else {
                    assert(self.prog.funcs@[p] == o[p] && self.prog.funcs@[q] == o[q]);
                }
            }
        }
        Ok(())
    }

    /// Adds an instruction at the end of the global code and gives back its id.
    pub fn add(&mut self, inst: InstructionType, reg_type: RegType) -> (r: Register)
        requires
            old(self).wf(),
        ensures
            final(self).wf(),
            r == InstUUID(true, 0, old(self).global.blocks@[0].instruction@.len() as usize),
            final(self).global.blocks@[0].instruction@ == old(self).global.blocks@[0].instruction@.push(
                (Instruction { id: r, reg_type, data: inst }),
            ),
            final(self).prog == old(self).prog,
    {
        let id = self.get_id();
        let mut blocks: Vec<BasicBlock> = Vec::new();
        std::mem::swap(&mut blocks, &mut self.global.blocks);
        let mut blk = blocks.pop().unwrap();
        blk.instruction.push(Instruction::new(id, reg_type, inst));
        blocks.push(blk);
        std::mem::swap(&mut blocks, &mut self.global.blocks);
        id
    }

    /// The program built: its global code and its functions.
    pub fn create(self) -> (p: IrProgram)
        requires
            self.wf(),
        ensures
            p.wf(),
            p.glob == self.global,
            p.funcs == self.prog.funcs,
    {
        let mut tmp = self;
        tmp.prog.glob = tmp.global;
        tmp.prog
    }
}

/// Builds a function block by block; instructions go to the current block.
pub struct FunctionBuilder {
    pub arg_count: u64,
    pub ret_type: RegType,
    pub act_bb: BBIndex,
    pub blocks: Vec<BasicBlock>,
}

impl FunctionBuilder {
    /// A builder with one empty block, which is the current one.
    pub fn new(arg_count: u64, ret_type: RegType) -> (b: Self)
        ensures
            b.arg_count == arg_count,
            b.ret_type == ret_type,
            b.act_bb == 0,
            b.blocks@.len() == 1,
            b.blocks@[0].instruction@.len() == 0,
            b.blocks@[0].predecesors@.len() == 0,
    {
        let mut blocks: Vec<BasicBlock> = Vec::new();
        blocks.push(BasicBlock::default());
        Self { arg_count, ret_type, act_bb: 0, blocks }
    }

    /// The id the next instruction of the current block gets.
    pub fn get_id(&self) -> (r: InstUUID)
        requires
            self.act_bb < self.blocks@.len(),
        ensures
            r == InstUUID(false, self.act_bb, self.blocks@[self.act_bb as int].instruction@.len() as usize),
    {
        InstUUID(false, self.act_bb, self.blocks[self.act_bb].instruction.len())
    }

    /// Adds an empty block and gives back its index.
    pub fn create_bb(&mut self) -> (r: BBIndex)
        ensures
            r == old(self).blocks@.len(),
            final(self).blocks@.len() == old(self).blocks@.len() + 1,
            final(self).blocks@.drop_last() == old(self).blocks@,
            final(self).blocks@.last().instruction@.len() == 0,
            final(self).blocks@.last().predecesors@.len() == 0,
            final(self).act_bb == old(self).act_bb,
            final(self).arg_count == old(self).arg_count,
            final(self).ret_type == old(self).ret_type,
    {
        self.blocks.push(BasicBlock::default());
        proof {
            assert(self.blocks@.drop_last() =~= old(self).blocks@);
        }
        self.blocks.len() - 1
    }

    /// Adds an instruction at the end of the current block and gives back its id.
    pub fn add(&mut self, inst: InstructionType, reg_type: RegType) -> (r: Register)
        requires
            old(self).act_bb < old(self).blocks@.len(),
        ensures
            r == InstUUID(false, old(self).act_bb, old(self).blocks@[old(self).act_bb as int].instruction@.len() as usize),
            final(self).blocks@.len() == old(self).blocks@.len(),
            final(self).blocks@[old(self).act_bb as int].instruction@ == old(self).blocks@[old(self).act_bb as int].instruction@.push(
                (Instruction { id: r, reg_type, data: inst }),
            ),
            final(self).blocks@[old(self).act_bb as int].predecesors == old(self).blocks@[old(self).act_bb as int].predecesors,
            forall|k: int| 0 <= k < old(self).blocks@.len() && k != old(self).act_bb ==> #[trigger] final(self).blocks@[k]
                == old(self).blocks@[k],
            final(self).act_bb == old(self).act_bb,
            final(self).arg_count == old(self).arg_count,
            final(self).ret_type == old(self).ret_type,
    {
        let id = self.get_id();
        let b = self.act_bb;
        let mut blk = BasicBlock::default();
        let mut blocks: Vec<BasicBlock> = Vec::new();
        std::mem::swap(&mut blocks, &mut self.blocks);
        let mut cur = blocks.remove(b);
        cur.instruction.push(Instruction::new(id, reg_type, inst));
        blocks.insert(b, cur);
        std::mem::swap(&mut blocks, &mut self.blocks);
        id
    }

    /// Makes `bi` the current block.
    pub fn set_bb(&mut self, bi: BBIndex)
        ensures
            final(self).act_bb == bi,
            final(self).blocks == old(self).blocks,
            final(self).arg_count == old(self).arg_count,
            final(self).ret_type == old(self).ret_type,
    {
        self.act_bb = bi;
    }

    /// The current block.
    pub fn get_act_bb(&self) -> (r: BBIndex)
        ensures
            r == self.act_bb,
    {
        self.act_bb
    }

    /// Adds the blocks `preds` to the predecessors of the block `to`.
    pub fn set_predecesors(&mut self, to: BBIndex, preds: &[BBIndex])
        requires
            to < old(self).blocks@.len(),
        ensures
            final(self).blocks@.len() == old(self).blocks@.len(),
            final(self).blocks@[to as int].predecesors@ == old(self).blocks@[to as int].predecesors@ + preds@,
            final(self).blocks@[to as int].instruction == old(self).blocks@[to as int].instruction,
            forall|k: int| 0 <= k < old(self).blocks@.len() && k != to ==> #[trigger] final(self).blocks@[k]
                == old(self).blocks@[k],
            final(self).act_bb == old(self).act_bb,
    {
        let mut blocks: Vec<BasicBlock> = Vec::new();
        std::mem::swap(&mut blocks, &mut self.blocks);
        let mut cur = blocks.remove(to);
        let ghost start = cur.predecesors@;
        let mut i: usize = 0;
        while i < preds.len()
            invariant
                0 <= i <= preds@.len(),
                cur.predecesors@ == start + preds@.take(i as int),
                cur.instruction == old(self).blocks@[to as int].instruction,
            decreases preds@.len() - i,
        {
            cur.add_predecesor(preds[i]);
            proof {
                assert(start + preds@.take(i + 1) =~= (start + preds@.take(i as int)).push(preds@[i as int]));
            }
            i += 1;
        }
        proof {
            assert(preds@.take(preds@.len() as int) =~= preds@);
        }
        blocks.insert(to, cur);
        std::mem::swap(&mut blocks, &mut self.blocks);
    }

    /// Whether the current block ends with a terminator.
    pub fn terminated(&self) -> (r: bool)
        requires
            self.act_bb < self.blocks@.len(),
        ensures
            r == (self.blocks@[self.act_bb as int].instruction@.len() > 0 && is_terminator(
                self.blocks@[self.act_bb as int].instruction@.last().data,
            )),
    {
        self.blocks[self.act_bb].terminated()
    }

    /// The function built, named `name`, after removing memory traffic until nothing
    /// more goes.
    pub fn create(self, name: &str) -> (f: Function)
        ensures
            f.name@ == name@,
            f.arg_count == self.arg_count,
            f.ret_type == self.ret_type,
            f.blocks@.len() == self.blocks@.len(),
            insts_total(f.blocks@) <= insts_total(self.blocks@),
            movs_total(f.blocks@) == 0,
            effects_kept(f.blocks@, self.blocks@),
    {
        let mut result = Function {
            name: String::from_str(name),
            arg_count: self.arg_count,
            ret_type: self.ret_type,
            blocks: self.blocks,
        };
        loop
            invariant
                result.name@ == name@,
                result.arg_count == self.arg_count,
                result.ret_type == self.ret_type,
                result.blocks@.len() == self.blocks@.len(),
                insts_total(result.blocks@) <= insts_total(self.blocks@),
                effects_kept(result.blocks@, self.blocks@),
            ensures
                result.name@ == name@,
                result.arg_count == self.arg_count,
                result.ret_type == self.ret_type,
                result.blocks@.len() == self.blocks@.len(),
                insts_total(result.blocks@) <= insts_total(self.blocks@),
                movs_total(result.blocks@) == 0,
                effects_kept(result.blocks@, self.blocks@),
            decreases insts_total(result.blocks@),
        {
            proof {
                lemma_movs_total_nonneg(result.blocks@);
            }
            let ghost prev = result.blocks@;
            let changed = remove_store_load(&mut result);
            proof {
                lemma_movs_total_nonneg(result.blocks@);
                assert forall|k: int| 0 <= k < result.blocks@.len() implies effect_ids(#[trigger] result.blocks@[k].instruction@)
                    == effect_ids(self.blocks@[k].instruction@) by {
                    assert(effect_ids(result.blocks@[k].instruction@) == effect_ids(prev[k].instruction@));
                }
            }
            if !changed {
                break;
            }
        }
        result
    }
}

} // verus!
