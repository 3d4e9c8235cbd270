use vstd::prelude::*;

use crate::middleend::inst::{
    is_terminator, regs_of, InstructionType, TerminatorBranch, TerminatorJump,
};

verus! {

/// An association list in which no key occurs twice.
pub open spec fn distinct_keys<K, V>(s: Seq<(K, V)>) -> bool {
    forall|i: int, j: int| 0 <= i < j < s.len() ==> (#[trigger] s[i]).0 != (#[trigger] s[j]).0
}

/// Id of an instruction, which is also the register it defines: whether it lies in
/// the global code, the index of its basic block and its index in that block.
#[derive(Clone, Copy, PartialEq, Eq, Debug, Hash, Structural)]
pub struct InstUUID(pub bool, pub usize, pub usize);

pub type Register = InstUUID;

pub type BBIndex = usize;

impl InstUUID {
    /// Index of the instruction in its block.
    pub fn val(&self) -> (r: usize)
        ensures
            r == self.2,
    {
        self.2
    }
}

/// Type of the value a register holds.
#[derive(Clone, Copy, PartialEq, Eq, Debug, Structural)]
pub enum RegType {
    Void,
    Int,
    Char,
}

/// An instruction with the register it defines and the type of that register.
#[derive(PartialEq, Eq, Debug)]
pub struct Instruction {
    pub id: InstUUID,
    pub reg_type: RegType,
    pub data: InstructionType,
}

impl Instruction {
    pub fn new(id: InstUUID, reg_type: RegType, data: InstructionType) -> (r: Self)
        ensures
            r.id == id,
            r.reg_type == reg_type,
            r.data == data,
    {
        Self { id, reg_type, data }
    }
}

/// A basic block: its predecessors and its instructions in order.
#[derive(PartialEq, Eq, Debug)]
pub struct BasicBlock {
    pub predecesors: Vec<BBIndex>,
    pub instruction: Vec<Instruction>,
}

/// Blocks that control passes to from the end of a block whose last instruction is `last`.
pub open spec fn successors_of(last: InstructionType) -> Seq<BBIndex> {
    match last {
        InstructionType::Jmp(TerminatorJump(b)) => seq![b],
        InstructionType::Branch(TerminatorBranch(_, t, f)) => seq![t, f],
        _ => seq![],
    }
}

/// Registers read by the instructions of a sequence, in order.
pub open spec fn used_regs(insts: Seq<Instruction>) -> Seq<Register>
    decreases insts.len(),
{
    if insts.len() == 0 {
        seq![]
    } else {
        used_regs(insts.drop_last()) + regs_of(insts.last().data)
    }
}

/// Registers read in a sequence of blocks, block after block.
pub open spec fn blocks_used_regs(blocks: Seq<BasicBlock>) -> Seq<Register>
    decreases blocks.len(),
{
    if blocks.len() == 0 {
        seq![]
    } else {
        blocks_used_regs(blocks.drop_last()) + used_regs(blocks.last().instruction@)
    }
}

impl BasicBlock {
    /// An empty block without predecessors.
    pub fn default() -> (b: Self)
        ensures
            b.predecesors@.len() == 0,
            b.instruction@.len() == 0,
    {
        Self { predecesors: Vec::new(), instruction: Vec::new() }
    }

    pub fn add_predecesor(&mut self, predecesor: BBIndex)
        ensures
            final(self).predecesors@ == old(self).predecesors@.push(predecesor),
            final(self).instruction == old(self).instruction,
    {
        self.predecesors.push(predecesor);
    }

    /// The predecessors of the block.
    pub fn pred(&self) -> (r: Vec<BBIndex>)
        ensures
            r@ == self.predecesors@,
    {
        let mut out: Vec<BBIndex> = Vec::new();
        let mut i: usize = 0;
        while i < self.predecesors.len()
            invariant
                0 <= i <= self.predecesors@.len(),
                out@ == self.predecesors@.take(i as int),
            decreases self.predecesors@.len() - i,
        {
            out.push(self.predecesors[i]);
            i += 1;
        }
        assert(out@ =~= self.predecesors@);
        out
    }

    /// The successors of the block, read from its last instruction.
    pub fn succ(&self) -> (r: Vec<BBIndex>)
        ensures
            r@ == if self.instruction@.len() == 0 {
                seq![]
            } else {
                successors_of(self.instruction@.last().data)
            },
    {
        if self.instruction.len() == 0 {
            return Vec::new();
        }
        let last = &self.instruction[self.instruction.len() - 1];
        match &last.data {
            InstructionType::Jmp(TerminatorJump(b)) => vec![*b],
            InstructionType::Branch(TerminatorBranch(_, t, f)) => vec![*t, *f],
            _ => Vec::new(),
        }
    }

    /// The registers the block reads, instruction after instruction.
    pub fn get_used_regs(&self) -> (r: Vec<Register>)
        ensures
            r@ == used_regs(self.instruction@),
    {
        let mut out: Vec<Register> = Vec::new();
        let mut i: usize = 0;
        while i < self.instruction.len()
            invariant
                0 <= i <= self.instruction@.len(),
                out@ == used_regs(self.instruction@.take(i as int)),
            decreases self.instruction@.len() - i,
        {
            let regs = self.instruction[i].data.get_regs();
            let mut j: usize = 0;
            let ghost before = out@;
            while j < regs.len()
                invariant
                    0 <= j <= regs@.len(),
                    out@ == before + regs@.take(j as int),
                decreases regs@.len() - j,
            {
                out.push(regs[j]);
                j += 1;
                assert(out@ =~= before + regs@.take(j as int));
            }
            proof {
                assert(regs@.take(regs@.len() as int) =~= regs@);
                assert(self.instruction@.take(i + 1).drop_last() =~= self.instruction@.take(i as int));
            }
            i += 1;
        }
        assert(self.instruction@.take(self.instruction@.len() as int) =~= self.instruction@);
        out
    }

    /// Whether the block ends with a terminator.
    pub fn terminated(&self) -> (r: bool)
        ensures
            r == (self.instruction@.len() > 0 && is_terminator(self.instruction@.last().data)),
    {
        if self.instruction.len() == 0 {
            false
        } else {
            self.instruction[self.instruction.len() - 1].data.terminator()
        }
    }
}

/// A function: its name, number of arguments, return type and basic blocks, the first
/// of which is where it starts.
#[derive(PartialEq, Eq, Debug)]
pub struct Function {
    pub name: String,
    pub arg_count: u64,
    pub ret_type: RegType,
    pub blocks: Vec<BasicBlock>,
}

impl Function {
    /// The block where the function starts.
    pub fn start(&self) -> (r: &BasicBlock)
        requires
            self.blocks@.len() > 0,
        ensures
            *r == self.blocks@[0],
    {
        &self.blocks[0]
    }

    /// The registers the function reads, block after block.
    pub fn get_used_regs(&self) -> (r: Vec<Register>)
        ensures
            r@ == blocks_used_regs(self.blocks@),
    {
        let mut out: Vec<Register> = Vec::new();
        let mut i: usize = 0;
        while i < self.blocks.len()
            invariant
                0 <= i <= self.blocks@.len(),
                out@ == blocks_used_regs(self.blocks@.take(i as int)),
            decreases self.blocks@.len() - i,
        {
            let regs = self.blocks[i].get_used_regs();
            let mut j: usize = 0;
            let ghost before = out@;
            while j < regs.len()
                invariant
                    0 <= j <= regs@.len(),
                    out@ == before + regs@.take(j as int),
                decreases regs@.len() - j,
            {
                out.push(regs[j]);
                j += 1;
                assert(out@ =~= before + regs@.take(j as int));
            }
            proof {
                assert(regs@.take(regs@.len() as int) =~= regs@);
                assert(self.blocks@.take(i + 1).drop_last() =~= self.blocks@.take(i as int));
            }
            i += 1;
        }
        assert(self.blocks@.take(self.blocks@.len() as int) =~= self.blocks@);
        out
    }

    /// The empty global function, returning nothing.
    pub fn default() -> (f: Self)
        ensures
            f.name@ == "global"@,
            f.arg_count == 0,
            f.ret_type == RegType::Void,
            f.blocks@.len() == 0,
    {
        Function { name: global_name(), arg_count: 0, ret_type: RegType::Void, blocks: Vec::new() }
    }
}

/// The name of the global code.
pub fn global_name() -> (s: String)
    ensures
        s@ == "global"@,
{
    let s = String::from_str("global");
    proof {
        reveal_strlit("global");
    }
    s
}

/// An arena of instructions in which the id of each instruction is its place.
pub struct InstStore {
    pub data: Vec<Instruction>,
}

impl InstStore {
    /// Each instruction carries the id of its place.
    pub open spec fn wf(&self) -> bool {
        forall|i: int| 0 <= i < self.data@.len() ==> (#[trigger] self.data@[i]).id == InstUUID(true, 0, i as usize)
    }

    /// The empty store.
    pub fn default() -> (s: Self)
        ensures
            s.wf(),
            s.data@.len() == 0,
    {
        InstStore { data: Vec::new() }
    }

    /// The id the next instruction added will get.
    pub fn get_next_id(&self) -> (r: InstUUID)
        ensures
            r == InstUUID(true, 0, self.data@.len() as usize),
    {
        InstUUID(true, 0, self.data.len())
    }

    /// Adds an instruction at the end and gives back its id.
    pub fn add_inst(&mut self, inst: InstructionType, reg_type: RegType) -> (r: InstUUID)
        requires
            old(self).wf(),
        ensures
            final(self).wf(),
            r == InstUUID(true, 0, old(self).data@.len() as usize),
            final(self).data@.len() == old(self).data@.len() + 1,
            final(self).data@.drop_last() == old(self).data@,
            final(self).data@.last() == (Instruction { id: r, reg_type, data: inst }),
    {
        let id = self.get_next_id();
        self.data.push(Instruction::new(id, reg_type, inst));
        proof {
            assert(self.data@.drop_last() =~= old(self).data@);
        }
        id
    }

    /// Puts a new instruction in the place of `id`, keeping the id.
    pub fn replace_inst(&mut self, id: InstUUID, inst: InstructionType, reg_type: RegType) -> (r: InstUUID)
        requires
            id.2 < old(self).data@.len(),
        ensures
            old(self).wf() && id == InstUUID(true, 0, id.2) ==> final(self).wf(),
            r == id,
            final(self).data@ == old(self).data@.update(id.2 as int, (Instruction { id, reg_type, data: inst })),
    {
        let i = id.2;
        self.data.set(i, Instruction::new(id, reg_type, inst));
        id
    }

    /// The instruction with the id `id`.
    pub fn get(&self, id: InstUUID) -> (r: &Instruction)
        requires
            id.2 < self.data@.len(),
        ensures
            *r == self.data@[id.2 as int],
    {
        &self.data[id.2]
    }

    /// The instruction with the id `id`, to change in place.
    pub fn get_mut(&mut self, id: InstUUID) -> (r: &mut Instruction)
        requires
            id.2 < old(self).data@.len(),
        ensures
            *r == old(self).data@[id.2 as int],
            final(self).data@ == old(self).data@.update(id.2 as int, *final(r)),
    {
        &mut self.data[id.2]
    }
}

/// A program: its global code and its functions, which have distinct names.
pub struct IrProgram {
    pub store: InstStore,
    pub glob: Function,
    pub funcs: Vec<Function>,
}

/// Whether a function named `name` is among `funcs`.
pub open spec fn has_function(funcs: Seq<Function>, name: Seq<char>) -> bool {
    exists|i: int| 0 <= i < funcs.len() && (#[trigger] funcs[i]).name@ == name
}

impl IrProgram {
    /// No two functions share a name.
    pub open spec fn wf(&self) -> bool {
        forall|i: int, j: int| 0 <= i < j < self.funcs@.len() ==> (#[trigger] self.funcs@[i]).name@ != (#[trigger] self.funcs@[j]).name@
    }

    /// A program with no global code and no functions.
    pub fn default() -> (p: Self)
        ensures
            p.wf(),
            p.store.wf(),
            p.store.data@.len() == 0,
            p.glob.name@ == "global"@,
            p.glob.blocks@.len() == 0,
            p.funcs@.len() == 0,
    {
        IrProgram { store: InstStore::default(), glob: Function::default(), funcs: Vec::new() }
    }

    /// The type of a register defined in the global store.
    pub fn get_type(&self, reg: Register) -> (r: RegType)
        requires
            reg.2 < self.store.data@.len(),
        ensures
            r == self.store.data@[reg.2 as int].reg_type,
    {
        self.store.get(reg).reg_type
    }

    /// The instruction of the global store with the id `inst_id`.
    pub fn get_inst(&self, inst_id: InstUUID) -> (r: &Instruction)
        requires
            inst_id.2 < self.store.data@.len(),
        ensures
            *r == self.store.data@[inst_id.2 as int],
    {
        self.store.get(inst_id)
    }
}

} // verus!
