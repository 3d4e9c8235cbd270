use vstd::prelude::*;

use crate::backend::insts::Rd;
use crate::middleend::analysis::lattice::contains_reg;
use crate::middleend::inst::{ImmI, InstructionType};
use crate::middleend::ir::{distinct_keys, BasicBlock, Function, InstUUID, Instruction, Register};

verus! {

/// Where the value of a register of the intermediate code lives: in an architectural
/// register, on the stack at an offset, or, for an allocation, the offset of its memory.
#[derive(Clone, Copy, Debug, PartialEq, Eq, Structural)]
pub enum ValueCell {
    Register(usize),
    StackOffset(i64),
    Value(i64),
}

/// An allocation of the registers of a function.
pub trait RegAllocator {
    /// Where the value of `reg` lives, if it got a place.
    spec fn spec_location(&self, reg: Register) -> Option<ValueCell>;

    /// Where the value of `reg` lives, if it got a place.
    fn get_location(&self, reg: Register) -> (r: Option<ValueCell>)
        ensures
            r == self.spec_location(reg),
    ;

    /// The architectural registers in use at the instruction `place`.
    spec fn spec_used(&self, place: InstUUID) -> Seq<usize>;

    /// The architectural registers in use at the instruction `place`.
    fn get_used(&self, place: InstUUID) -> (r: Vec<usize>)
        ensures
            r@ == self.spec_used(place),
    ;

    /// The size of the stack frame.
    fn get_stacksize(&self) -> usize;
}

/// The architectural registers given out.
pub open spec fn allocatable(r: usize) -> bool {
    r == 5 || r == 6 || r == 7 || r == 28
}

/// The location of `reg` in an association list: its first entry.
pub open spec fn location_of(regs: Seq<(Register, ValueCell)>, reg: Register) -> Option<ValueCell>
    decreases regs.len(),
{
    if regs.len() == 0 {
        None
    } else if regs[0].0 == reg {
        Some(regs[0].1)
    } else {
        location_of(regs.drop_first(), reg)
    }
}

fn find_location(regs: &Vec<(Register, ValueCell)>, reg: Register) -> (r: Option<ValueCell>)
    ensures
        r == location_of(regs@, reg),
{
    let mut i: usize = 0;
    assert(regs@.skip(0) =~= regs@);
    while i < regs.len()
        invariant
            0 <= i <= regs@.len(),
            location_of(regs@, reg) == location_of(regs@.skip(i as int), reg),
        decreases regs@.len() - i,
    {
        assert(regs@.skip(i as int).drop_first() =~= regs@.skip(i + 1));
        if regs[i].0 == reg {
            return Some(regs[i].1);
        }
        i += 1;
    }
    None
}

/// Gives `reg` the location `cell`, replacing its earlier one.
fn set_location(regs: &mut Vec<(Register, ValueCell)>, reg: Register, cell: ValueCell)
    ensures
        location_of(final(regs)@, reg) == Some(cell),
        forall|r: Register| r != reg ==> location_of(final(regs)@, r) == #[trigger] location_of(old(regs)@, r),
        forall|k: int| 0 <= k < final(regs)@.len() ==> #[trigger] final(regs)@[k] == (reg, cell) || old(regs)@.contains(final(regs)@[k]),
        distinct_keys(old(regs)@) ==> distinct_keys(final(regs)@),
{
    let mut i: usize = 0;
    while i < regs.len()
        invariant
            0 <= i <= regs@.len(),
            *regs == *old(regs),
            forall|k: int| 0 <= k < i ==> regs@[k].0 != reg,
        decreases regs@.len() - i,
    {
        if regs[i].0 == reg {
            regs.set(i, (reg, cell));
            proof {
                if distinct_keys(old(regs)@) {
                    assert forall|a: int, b2: int| 0 <= a < b2 < regs@.len() implies (#[trigger] regs@[a]).0 != (#[trigger] regs@[b2]).0 by {
                        assert(old(regs)@[a].0 != old(regs)@[b2].0);
                    }
                }
                lemma_location_set(old(regs)@, i as int, reg, cell);
                assert forall|k: int| 0 <= k < regs@.len() implies #[trigger] regs@[k] == (reg, cell) || old(regs)@.contains(regs@[k]) by {
                    if k != i {
                        assert(regs@[k] == old(regs)@[k]);
                    }
                }
            }
            return;
        }
        i += 1;
    }
    regs.push((reg, cell));
    proof {
        if distinct_keys(old(regs)@) {
            assert forall|a: int, b2: int| 0 <= a < b2 < regs@.len() implies (#[trigger] regs@[a]).0 != (#[trigger] regs@[b2]).0 by {
                if b2 < old(regs)@.len() {
                    assert(old(regs)@[a].0 != old(regs)@[b2].0);
                } else {
                    assert(old(regs)@[a].0 != reg);
                }
            }
        }
        lemma_location_push(old(regs)@, reg, cell);
        assert forall|k: int| 0 <= k < regs@.len() implies #[trigger] regs@[k] == (reg, cell) || old(regs)@.contains(regs@[k]) by {
            if k < old(regs)@.len() {
                assert(regs@[k] == old(regs)@[k]);
            }
        }
    }
}

proof fn lemma_location_set(regs: Seq<(Register, ValueCell)>, i: int, reg: Register, cell: ValueCell)
    requires
        0 <= i < regs.len(),
        regs[i].0 == reg,
        forall|k: int| 0 <= k < i ==> regs[k].0 != reg,
    ensures
        location_of(regs.update(i, (reg, cell)), reg) == Some(cell),
        forall|r: Register| r != reg ==> location_of(regs.update(i, (reg, cell)), r) == #[trigger] location_of(regs, r),
    decreases regs.len(),
{
    if i > 0 {
        assert(regs.update(i, (reg, cell)).drop_first() =~= regs.drop_first().update(i - 1, (reg, cell)));
        lemma_location_set(regs.drop_first(), i - 1, reg, cell);
        assert(regs.update(i, (reg, cell))[0] == regs[0]);
        assert forall|r: Register| r != reg implies location_of(regs.update(i, (reg, cell)), r) == #[trigger] location_of(regs, r) by {
            assert(regs.update(i, (reg, cell))[0] == regs[0]);
            assert(location_of(regs.drop_first().update(i - 1, (reg, cell)), r) == location_of(regs.drop_first(), r));
        }
    } else {
        assert forall|r: Register| r != reg implies location_of(regs.update(i, (reg, cell)), r) == #[trigger] location_of(regs, r) by {
            assert(regs.update(i, (reg, cell)).drop_first() =~= regs.drop_first());
        }
    }
}

proof fn lemma_location_push(regs: Seq<(Register, ValueCell)>, reg: Register, cell: ValueCell)
    requires
        forall|k: int| 0 <= k < regs.len() ==> regs[k].0 != reg,
    ensures
        location_of(regs.push((reg, cell)), reg) == Some(cell),
        forall|r: Register| r != reg ==> location_of(regs.push((reg, cell)), r) == #[trigger] location_of(regs, r),
    decreases regs.len(),
{
    if regs.len() > 0 {
        assert(regs.push((reg, cell)).drop_first() =~= regs.drop_first().push((reg, cell)));
        lemma_location_push(regs.drop_first(), reg, cell);
        assert(regs.push((reg, cell))[0] == regs[0]);
        assert forall|r: Register| r != reg implies location_of(regs.push((reg, cell)), r) == #[trigger] location_of(regs, r) by {
            assert(regs.push((reg, cell))[0] == regs[0]);
            assert(location_of(regs.drop_first().push((reg, cell)), r) == location_of(regs.drop_first(), r));
        }
    } else {
        assert forall|r: Register| r != reg implies location_of(regs.push((reg, cell)), r) == #[trigger] location_of(regs, r) by {
            assert(regs.push((reg, cell)).drop_first() =~= Seq::<(Register, ValueCell)>::empty());
            assert(regs.push((reg, cell))[0] == (reg, cell));
            assert(location_of(Seq::<(Register, ValueCell)>::empty(), r) is None);
            assert(location_of(regs.push((reg, cell)).drop_first(), r) is None);
        }
    }
}

/// A location that is no register, or an allocatable one.
pub open spec fn cell_ok(c: ValueCell) -> bool {
    c matches ValueCell::Register(x) ==> allocatable(x)
}

/// Whether every register location in `regs` is an allocatable register.
pub open spec fn registers_allocatable(regs: Seq<(Register, ValueCell)>) -> bool {
    forall|k: int| 0 <= k < regs.len() ==> cell_ok((#[trigger] regs[k]).1)
}

/// The four allocatable registers, in the order they are given out last to first.
fn initial_free() -> (r: Vec<usize>)
    ensures
        r@ == seq![5usize, 6, 7, 28],
        forall|k: int| 0 <= k < r@.len() ==> allocatable(#[trigger] r@[k]),
{
    let r = vec![5, 6, 7, 28];
    proof {
        assert(r@ =~= seq![5usize, 6, 7, 28]);
    }
    r
}

/// The instructions of `blocks`, block after block.
pub open spec fn all_insts(blocks: Seq<BasicBlock>) -> Seq<Instruction>
    decreases blocks.len(),
{
    if blocks.len() == 0 {
        Seq::empty()
    } else {
        all_insts(blocks.drop_last()) + blocks.last().instruction@
    }
}

/// The naive allocation after the instructions `insts`, in order: the free registers,
/// the location of each register, and the stack used. An allocation gets the stack at its
/// current size and grows it by its size; any other register takes the last free register,
/// or, when none is left, the next eight bytes of the stack.
pub open spec fn naive_layout(insts: Seq<Instruction>) -> (Seq<usize>, Map<Register, ValueCell>, i64)
    decreases insts.len(),
{
    if insts.len() == 0 {
        (seq![5usize, 6, 7, 28], Map::empty(), 0i64)
    } else {
        let (free, loc, stack) = naive_layout(insts.drop_last());
        let inst = insts.last();
        match inst.data {
            InstructionType::Alloca(ImmI(size)) => (free, loc.insert(inst.id, ValueCell::Value(stack)), stack.wrapping_add(size)),
            _ => if free.len() == 0 {
                (free, loc.insert(inst.id, ValueCell::StackOffset(stack)), stack.wrapping_add(8))
            } else {
                (free.drop_last(), loc.insert(inst.id, ValueCell::Register(free.last())), stack)
            },
        }
    }
}

/// A location table as an optional lookup.
pub open spec fn map_lookup(m: Map<Register, ValueCell>, x: Register) -> Option<ValueCell> {
    if m.dom().contains(x) {
        Some(m[x])
    } else {
        None
    }
}

/// Whether an allocator's free registers, locations and stack size are the naive layout
/// after `insts`.
pub open spec fn is_naive_layout(free: Seq<usize>, regs: Seq<(Register, ValueCell)>, stack: i64, insts: Seq<Instruction>) -> bool {
    &&& free == naive_layout(insts).0
    &&& stack == naive_layout(insts).2
    &&& forall|x: Register| #[trigger] location_of(regs, x) == map_lookup(naive_layout(insts).1, x)
}

/// Keeps each register in an architectural register, while there are free ones, or on
/// the stack, for the whole function; an allocation gets memory on the stack.
pub struct NaiveAllocator {
    pub freeowned: Vec<usize>,
    pub registers: Vec<(Register, ValueCell)>,
    pub stacksize: i64,
}

impl NaiveAllocator {
    /// Allocates the registers of `function`.
    pub fn new(function: &Function) -> (r: Self)
        ensures
            registers_allocatable(r.registers@),
            forall|b: int, i: int| 0 <= b < function.blocks@.len() && 0 <= i < function.blocks@[b].instruction@.len()
                ==> location_of(r.registers@, (#[trigger] function.blocks@[b].instruction@[i]).id) is Some,
            is_naive_layout(r.freeowned@, r.registers@, r.stacksize, all_insts(function.blocks@)),
            distinct_keys(r.registers@),
    {
        let mut res = Self { freeowned: initial_free(), registers: Vec::new(), stacksize: 0 };
        proof {
            assert(is_naive_layout(res.freeowned@, res.registers@, res.stacksize, Seq::<Instruction>::empty()));
        }
        res.allocate(function);
        res
    }

    fn allocate(&mut self, prog: &Function)
        requires
            registers_allocatable(old(self).registers@),
            forall|k: int| 0 <= k < old(self).freeowned@.len() ==> allocatable(#[trigger] old(self).freeowned@[k]),
            is_naive_layout(old(self).freeowned@, old(self).registers@, old(self).stacksize, Seq::<Instruction>::empty()),
            distinct_keys(old(self).registers@),
        ensures
            distinct_keys(final(self).registers@),
            is_naive_layout(final(self).freeowned@, final(self).registers@, final(self).stacksize, all_insts(prog.blocks@)),
            registers_allocatable(final(self).registers@),
            forall|b: int, i: int| 0 <= b < prog.blocks@.len() && 0 <= i < prog.blocks@[b].instruction@.len()
                ==> location_of(final(self).registers@, (#[trigger] prog.blocks@[b].instruction@[i]).id) is Some,
    {
        let mut b: usize = 0;
        while b < prog.blocks.len()
            invariant
                0 <= b <= prog.blocks@.len(),
                registers_allocatable(self.registers@),
                forall|k: int| 0 <= k < self.freeowned@.len() ==> allocatable(#[trigger] self.freeowned@[k]),
                forall|bb: int, i: int| 0 <= bb < b && 0 <= i < prog.blocks@[bb].instruction@.len()
                    ==> location_of(self.registers@, (#[trigger] prog.blocks@[bb].instruction@[i]).id) is Some,
                is_naive_layout(self.freeowned@, self.registers@, self.stacksize, all_insts(prog.blocks@.take(b as int))),
                distinct_keys(self.registers@),
            decreases prog.blocks@.len() - b,
        {
            let ghost pre = all_insts(prog.blocks@.take(b as int));
            let mut i: usize = 0;
            while i < prog.blocks[b].instruction.len()
                invariant
                    0 <= i <= prog.blocks@[b as int].instruction@.len(),
                    b < prog.blocks@.len(),
                    registers_allocatable(self.registers@),
                    forall|k: int| 0 <= k < self.freeowned@.len() ==> allocatable(#[trigger] self.freeowned@[k]),
                    forall|bb: int, k: int| 0 <= bb < b && 0 <= k < prog.blocks@[bb].instruction@.len()
                        ==> location_of(self.registers@, (#[trigger] prog.blocks@[bb].instruction@[k]).id) is Some,
                    forall|k: int| 0 <= k < i ==> location_of(self.registers@, (#[trigger] prog.blocks@[b as int].instruction@[k]).id) is Some,
                    pre == all_insts(prog.blocks@.take(b as int)),
                    is_naive_layout(self.freeowned@, self.registers@, self.stacksize, pre + prog.blocks@[b as int].instruction@.take(i as int)),
                    distinct_keys(self.registers@),
                decreases prog.blocks@[b as int].instruction@.len() - i,
            {
                let inst = &prog.blocks[b].instruction[i];
                let ghost before = self.registers@;
                let ghost seen = pre + prog.blocks@[b as int].instruction@.take(i as int);
                let ghost seen2 = pre + prog.blocks@[b as int].instruction@.take(i + 1);
                proof {
                    assert(seen2.drop_last() =~= seen);
                    assert(seen2.last() == *inst);
                }
                match &inst.data {
                    InstructionType::Alloca(ImmI(size)) => {
                        set_location(&mut self.registers, inst.id, ValueCell::Value(self.stacksize));
                        self.stacksize = self.stacksize.wrapping_add(*size);
                    },
                    _ => self.allocate_reg(inst.id),
                }
                proof {
                    assert forall|x: Register| #[trigger] location_of(self.registers@, x) == map_lookup(naive_layout(seen2).1, x) by {
                        if x != inst.id {
                            assert(location_of(before, x) == map_lookup(naive_layout(seen).1, x));
                        }
                    }
                    assert forall|k: int| 0 <= k < self.registers@.len() implies cell_ok((#[trigger] self.registers@[k]).1) by {
                        if before.contains(self.registers@[k]) {
                            let m = choose|m: int| 0 <= m < before.len() && before[m] == self.registers@[k];
                            assert(cell_ok(before[m].1));
                        }
                    }
                    assert forall|bb: int, k: int| 0 <= bb < b && 0 <= k < prog.blocks@[bb].instruction@.len()
                        implies location_of(self.registers@, (#[trigger] prog.blocks@[bb].instruction@[k]).id) is Some by {
                        let id = prog.blocks@[bb].instruction@[k].id;
                        if id != inst.id {
                            assert(location_of(before, id) is Some);
                        }
                    }
                    assert forall|k: int| 0 <= k < i + 1 implies location_of(self.registers@, (#[trigger] prog.blocks@[b as int].instruction@[k]).id) is Some by {
                        let id = prog.blocks@[b as int].instruction@[k].id;
                        if id != inst.id {
                            assert(location_of(before, id) is Some);
                        }
                    }
                }
                i += 1;
            }
            proof {
                assert(prog.blocks@[b as int].instruction@.take(i as int) =~= prog.blocks@[b as int].instruction@);
                assert(prog.blocks@.take(b + 1).drop_last() =~= prog.blocks@.take(b as int));
                assert(prog.blocks@.take(b + 1).last() == prog.blocks@[b as int]);
            }
            b += 1;
        }
        proof {
            assert(prog.blocks@.take(b as int) =~= prog.blocks@);
        }
    }

    fn allocate_reg(&mut self, reg: Register)
        requires
            registers_allocatable(old(self).registers@),
            forall|k: int| 0 <= k < old(self).freeowned@.len() ==> allocatable(#[trigger] old(self).freeowned@[k]),
        ensures
            forall|k: int| 0 <= k < final(self).freeowned@.len() ==> allocatable(#[trigger] final(self).freeowned@[k]),
            location_of(final(self).registers@, reg) is Some,
            forall|r: Register| r != reg ==> location_of(final(self).registers@, r) == #[trigger] location_of(old(self).registers@, r),
            forall|k: int| 0 <= k < final(self).registers@.len() ==> cell_ok((#[trigger] final(self).registers@[k]).1)
                && (!(final(self).registers@[k].1 is Register) || old(self).registers@.contains(final(self).registers@[k]) || final(self).registers@[k].0 == reg),
            distinct_keys(old(self).registers@) ==> distinct_keys(final(self).registers@),
            old(self).freeowned@.len() == 0 ==> final(self).freeowned@ == old(self).freeowned@
                && final(self).stacksize == old(self).stacksize.wrapping_add(8)
                && location_of(final(self).registers@, reg) == Some(ValueCell::StackOffset(old(self).stacksize)),
            old(self).freeowned@.len() > 0 ==> final(self).freeowned@ == old(self).freeowned@.drop_last()
                && final(self).stacksize == old(self).stacksize
                && location_of(final(self).registers@, reg) == Some(ValueCell::Register(old(self).freeowned@.last())),
    {
        let ghost before = self.registers@;
        if self.freeowned.len() == 0 {
            let offset = ValueCell::StackOffset(self.stacksize);
            self.stacksize = self.stacksize.wrapping_add(8);
            set_location(&mut self.registers, reg, offset);
            proof {
                assert forall|k: int| 0 <= k < self.registers@.len() implies cell_ok((#[trigger] self.registers@[k]).1)
                    && (!(self.registers@[k].1 is Register) || before.contains(self.registers@[k]) || self.registers@[k].0 == reg) by {
                    if self.registers@[k] != (reg, offset) {
                        let m = choose|m: int| 0 <= m < before.len() && before[m] == self.registers@[k];
                        assert(cell_ok(before[m].1));
                    }
                }
            }
        } else {
            let r = self.freeowned.pop().unwrap();
            assert(allocatable(r));
            set_location(&mut self.registers, reg, ValueCell::Register(r));
            proof {
                assert forall|k: int| 0 <= k < self.freeowned@.len() implies allocatable(#[trigger] self.freeowned@[k]) by {
                    assert(self.freeowned@[k] == old(self).freeowned@[k]);
                }
                assert forall|k: int| 0 <= k < self.registers@.len() implies cell_ok((#[trigger] self.registers@[k]).1)
                    && (!(self.registers@[k].1 is Register) || before.contains(self.registers@[k]) || self.registers@[k].0 == reg) by {
                    if self.registers@[k] != (reg, ValueCell::Register(r)) {
                        let m = choose|m: int| 0 <= m < before.len() && before[m] == self.registers@[k];
                        assert(cell_ok(before[m].1));
                    }
                }
            }
        }
    }
}

impl RegAllocator for NaiveAllocator {
    open spec fn spec_location(&self, reg: Register) -> Option<ValueCell> {
        location_of(self.registers@, reg)
    }

    fn get_location(&self, reg: Register) -> (r: Option<ValueCell>)
        ensures
            r == location_of(self.registers@, reg),
    {
        find_location(&self.registers, reg)
    }

    open spec fn spec_used(&self, place: InstUUID) -> Seq<usize> {
        Seq::empty()
    }

    fn get_used(&self, inst: InstUUID) -> (r: Vec<usize>)
        ensures
            r@.len() == 0,
    {
        Vec::new()
    }

    fn get_stacksize(&self) -> (r: usize)
        ensures
            0 <= self.stacksize <= usize::MAX ==> r == self.stacksize,
    {
        if self.stacksize < 0 {
            0
        } else if self.stacksize as u64 > usize::MAX as u64 {
            usize::MAX
        } else {
            self.stacksize as usize
        }
    }
}

/// Whether `x` occurs in `v`.
pub fn contains_rd(v: &Vec<Rd>, x: Rd) -> (r: bool)
    ensures
        r == v@.contains(x),
{
    let mut k: usize = 0;
    while k < v.len()
        invariant
            0 <= k <= v@.len(),
            forall|m: int| 0 <= m < k ==> v@[m] != x,
        decreases v@.len() - k,
    {
        if v[k] == x {
            return true;
        }
        k += 1;
    }
    false
}

/// A copy of a list of architectural registers.
fn copy_usizes(v: &Vec<usize>) -> (r: Vec<usize>)
    ensures
        r@ == v@,
{
    let mut out: Vec<usize> = Vec::new();
    let mut k: usize = 0;
    while k < v.len()
        invariant
            0 <= k <= v@.len(),
            out@ == v@.take(k as int),
        decreases v@.len() - k,
    {
        out.push(v[k]);
        k += 1;
    }
    assert(out@ =~= v@);
    out
}

/// Keeps each register in an architectural register, while there are free ones, from
/// its definition to the last instruction where it is live, then frees the register;
/// registers that do not fit go on the stack, and an allocation gets memory there.
pub struct LinearAllocator {
    pub liveness: Vec<Vec<Vec<Register>>>,
    pub freeowned: Vec<usize>,
    pub used_register: Vec<usize>,
    pub registers: Vec<(Register, ValueCell)>,
    pub release: Vec<Vec<Vec<Register>>>,
    pub used: Vec<(InstUUID, Vec<usize>)>,
    pub used_ir: Vec<Rd>,
    pub stacksize: i64,
}


/// `v` without the first occurrence of `r`, or `v` itself when `r` is not there.
pub open spec fn without_first(v: Seq<usize>, r: usize) -> Seq<usize>
    decreases v.len(),
{
    if v.len() == 0 {
        v
    } else if v[0] == r {
        v.drop_first()
    } else {
        seq![v[0]] + without_first(v.drop_first(), r)
    }
}

/// `v` without the first occurrence of each of `rs`, taken in order.
pub open spec fn without_each(v: Seq<usize>, rs: Seq<usize>) -> Seq<usize>
    decreases rs.len(),
{
    if rs.len() == 0 {
        v
    } else {
        without_first(without_each(v, rs.drop_last()), rs.last())
    }
}

/// The architectural registers held by the registers `rs`, in order; those held
/// elsewhere or nowhere are left out.
pub open spec fn held_registers(regs: Seq<(Register, ValueCell)>, rs: Seq<Register>) -> Seq<usize>
    decreases rs.len(),
{
    if rs.len() == 0 {
        Seq::empty()
    } else {
        held_registers(regs, rs.drop_last()) + match location_of(regs, rs.last()) {
            Some(ValueCell::Register(r)) => seq![r],
            _ => Seq::empty(),
        }
    }
}

/// The registers in use recorded for the instruction `id`: its first entry.
pub open spec fn used_at(used: Seq<(InstUUID, Vec<usize>)>, id: InstUUID) -> Option<Seq<usize>>
    decreases used.len(),
{
    if used.len() == 0 {
        None
    } else if used[0].0 == id {
        Some(used[0].1@)
    } else {
        used_at(used.drop_first(), id)
    }
}

proof fn lemma_without_first_at(v: Seq<usize>, r: usize, j: int)
    requires
        0 <= j <= v.len(),
        forall|i: int| 0 <= i < j ==> v[i] != r,
        j < v.len() ==> v[j] == r,
    ensures
        without_first(v, r) == if j < v.len() { v.remove(j) } else { v },
    decreases v.len(),
{
    if v.len() > 0 && j > 0 {
        lemma_without_first_at(v.drop_first(), r, j - 1);
        if j < v.len() {
            assert(seq![v[0]] + v.drop_first().remove(j - 1) =~= v.remove(j));
        } else {
            assert(seq![v[0]] + v.drop_first() =~= v);
        }
    } else if v.len() > 0 {
        assert(v.drop_first() =~= v.remove(0));
    }
}

proof fn lemma_used_at_found(used: Seq<(InstUUID, Vec<usize>)>, id: InstUUID, k: int)
    requires
        0 <= k <= used.len(),
        forall|j: int| 0 <= j < k ==> (#[trigger] used[j]).0 != id,
    ensures
        k < used.len() && used[k].0 == id ==> used_at(used, id) == Some(used[k].1@),
        k == used.len() ==> used_at(used, id) is None,
    decreases k,
{
    if k > 0 {
        lemma_used_at_found(used.drop_first(), id, k - 1);
    }
}

proof fn lemma_used_at_update(used: Seq<(InstUUID, Vec<usize>)>, k: int, e: (InstUUID, Vec<usize>), x: InstUUID)
    requires
        0 <= k < used.len(),
        used[k].0 == e.0,
        forall|j: int| 0 <= j < k ==> (#[trigger] used[j]).0 != e.0,
    ensures
        used_at(used.update(k, e), x) == if x == e.0 { Some(e.1@) } else { used_at(used, x) },
    decreases k,
{
    assert(used.update(k, e)[0] == if k == 0 { e } else { used[0] });
    if k > 0 {
        if used[0].0 != x {
            assert(used.update(k, e).drop_first() =~= used.drop_first().update(k - 1, e));
            lemma_used_at_update(used.drop_first(), k - 1, e, x);
        }
    } else {
        assert(used.update(k, e).drop_first() =~= used.drop_first());
    }
}

proof fn lemma_used_at_push(used: Seq<(InstUUID, Vec<usize>)>, e: (InstUUID, Vec<usize>), x: InstUUID)
    requires
        forall|j: int| 0 <= j < used.len() ==> (#[trigger] used[j]).0 != e.0,
    ensures
        used_at(used.push(e), x) == if x == e.0 { Some(e.1@) } else { used_at(used, x) },
    decreases used.len(),
{
    if used.len() > 0 {
        assert(used.push(e)[0] == used[0]);
        if used[0].0 != x {
            assert(used.push(e).drop_first() =~= used.drop_first().push(e));
            lemma_used_at_push(used.drop_first(), e, x);
        }
    } else {
        assert(used.push(e)[0] == e);
        assert(used.push(e).drop_first() =~= used);
    }
}


/// Whether `(b, i)` is a place at or after block `bs` and index `is`, within `blocks`,
/// where `reg` is live.
pub open spec fn live_candidate(
    liveness: Seq<Vec<Vec<Register>>>,
    blocks: Seq<BasicBlock>,
    reg: Register,
    bs: int,
    is: int,
    b: int,
    i: int,
) -> bool {
    &&& bs <= b < blocks.len()
    &&& is <= i < blocks[b].instruction@.len()
    &&& b < liveness.len()
    &&& i < liveness[b]@.len()
    &&& liveness[b]@[i]@.contains(reg)
}

/// Whether `(b, i)` comes no later than `(c, j)`, block first.
pub open spec fn no_later(b: int, i: int, c: int, j: int) -> bool {
    b < c || (b == c && i <= j)
}

/// Where `reg` is released: the last place from block `bs` and index `is` on where it is
/// live, or `(bs, is)` when there is none.
pub open spec fn release_place(
    liveness: Seq<Vec<Vec<Register>>>,
    blocks: Seq<BasicBlock>,
    reg: Register,
    bs: int,
    is: int,
) -> (int, int) {
    if exists|b: int, i: int| live_candidate(liveness, blocks, reg, bs, is, b, i) {
        choose|b: int, i: int| live_candidate(liveness, blocks, reg, bs, is, b, i) && forall|c: int, j: int|
            live_candidate(liveness, blocks, reg, bs, is, c, j) ==> no_later(c, j, b, i)
    } else {
        (bs, is)
    }
}

/// Whether `r` holds one list for each instruction of each block of `blocks`.
pub open spec fn release_shaped(r: Seq<Vec<Vec<Register>>>, blocks: Seq<BasicBlock>) -> bool {
    &&& r.len() == blocks.len()
    &&& forall|b: int| 0 <= b < r.len() ==> (#[trigger] r[b])@.len() == blocks[b].instruction@.len()
}

impl LinearAllocator {
    /// The invariant of the allocator: the registers it gives out, holds free or has in
    /// use are allocatable ones, and the release lists follow the blocks.
    pub open spec fn wf(&self, blocks: Seq<BasicBlock>) -> bool {
        &&& registers_allocatable(self.registers@)
        &&& forall|k: int| 0 <= k < self.freeowned@.len() ==> allocatable(#[trigger] self.freeowned@[k])
        &&& release_shaped(self.release@, blocks)
    }

    /// Allocates the registers of `function` that the code `used_ir` reads, starting
    /// with a stack frame of `stacksize` bytes, given the liveness of each register.
    pub fn new(function: &Function, used_ir: Vec<Rd>, stacksize: i64, liveness: Vec<Vec<Vec<Register>>>) -> (r: Self)
        ensures
            r.wf(function.blocks@),
            r.used_ir@ == used_ir@,
            forall|b: int, i: int| 0 <= b < function.blocks@.len() && 0 <= i < function.blocks@[b].instruction@.len()
                && used_ir@.contains(Rd::Ir((#[trigger] function.blocks@[b].instruction@[i]).id)) ==> location_of(
                r.registers@, function.blocks@[b].instruction@[i].id) is Some,
    {
        let mut release: Vec<Vec<Vec<Register>>> = Vec::new();
        let mut b: usize = 0;
        while b < function.blocks.len()
            invariant
                0 <= b <= function.blocks@.len(),
                release@.len() == b,
                forall|k: int| 0 <= k < b ==> (#[trigger] release@[k])@.len() == function.blocks@[k].instruction@.len(),
            decreases function.blocks@.len() - b,
        {
            let mut row: Vec<Vec<Register>> = Vec::new();
            let mut i: usize = 0;
            while i < function.blocks[b].instruction.len()
                invariant
                    0 <= i <= function.blocks@[b as int].instruction@.len(),
                    b < function.blocks@.len(),
                    row@.len() == i,
                decreases function.blocks@[b as int].instruction@.len() - i,
            {
                row.push(Vec::new());
                i += 1;
            }
            release.push(row);
            b += 1;
        }
        let mut res = Self {
            liveness,
            freeowned: initial_free(),
            used_register: Vec::new(),
            registers: Vec::new(),
            release,
            used: Vec::new(),
            used_ir,
            stacksize,
        };
        res.allocate(function);
        res
    }

    fn allocate(&mut self, fun: &Function)
        requires
            old(self).wf(fun.blocks@),
        ensures
            final(self).wf(fun.blocks@),
            final(self).used_ir == old(self).used_ir,
            forall|b: int, i: int| 0 <= b < fun.blocks@.len() && 0 <= i < fun.blocks@[b].instruction@.len()
                && old(self).used_ir@.contains(Rd::Ir((#[trigger] fun.blocks@[b].instruction@[i]).id)) ==> location_of(
                final(self).registers@, fun.blocks@[b].instruction@[i].id) is Some,
    {
        let mut b: usize = 0;
        while b < fun.blocks.len()
            invariant
                0 <= b <= fun.blocks@.len(),
                self.wf(fun.blocks@),
                self.used_ir == old(self).used_ir,
                forall|bb: int, i: int| 0 <= bb < b && 0 <= i < fun.blocks@[bb].instruction@.len()
                    && self.used_ir@.contains(Rd::Ir((#[trigger] fun.blocks@[bb].instruction@[i]).id)) ==> location_of(
                    self.registers@, fun.blocks@[bb].instruction@[i].id) is Some,
            decreases fun.blocks@.len() - b,
        {
            let mut i: usize = 0;
            while i < fun.blocks[b].instruction.len()
                invariant
                    0 <= i <= fun.blocks@[b as int].instruction@.len(),
                    b < fun.blocks@.len(),
                    self.wf(fun.blocks@),
                    self.used_ir == old(self).used_ir,
                    forall|bb: int, k: int| 0 <= bb < b && 0 <= k < fun.blocks@[bb].instruction@.len()
                        && self.used_ir@.contains(Rd::Ir((#[trigger] fun.blocks@[bb].instruction@[k]).id)) ==> location_of(
                        self.registers@, fun.blocks@[bb].instruction@[k].id) is Some,
                    forall|k: int| 0 <= k < i && self.used_ir@.contains(Rd::Ir((#[trigger] fun.blocks@[b as int].instruction@[k]).id))
                        ==> location_of(self.registers@, fun.blocks@[b as int].instruction@[k].id) is Some,
                decreases fun.blocks@[b as int].instruction@.len() - i,
            {
                let inst = &fun.blocks[b].instruction[i];
                let inst_id = inst.id;
                let ghost before = self.registers@;
                if contains_rd(&self.used_ir, Rd::Ir(inst_id)) {
                    match &inst.data {
                        InstructionType::Alloca(ImmI(size)) => {
                            set_location(&mut self.registers, inst_id, ValueCell::Value(self.stacksize));
                            self.stacksize = self.stacksize.wrapping_add(*size);
                            proof {
                                assert forall|k: int| 0 <= k < self.registers@.len() implies cell_ok((#[trigger] self.registers@[k]).1) by {
                                    if self.registers@[k] != (inst_id, ValueCell::Value(self.stacksize)) && before.contains(self.registers@[k]) {
                                        let m = choose|m: int| 0 <= m < before.len() && before[m] == self.registers@[k];
                                        assert(cell_ok(before[m].1));
                                    }
                                }
                            }
                        },
                        _ => self.allocate_reg(inst_id, b, i, fun),
                    }
                }
                let ghost after_alloc = self.registers@;
                let snapshot = copy_usizes(&self.used_register);
                self.set_used(inst_id, snapshot);
                self.release(b, i, fun);
                proof {
                    assert forall|bb: int, k: int| 0 <= bb < b && 0 <= k < fun.blocks@[bb].instruction@.len()
                        && self.used_ir@.contains(Rd::Ir((#[trigger] fun.blocks@[bb].instruction@[k]).id)) implies location_of(
                        self.registers@, fun.blocks@[bb].instruction@[k].id) is Some by {
                        let id = fun.blocks@[bb].instruction@[k].id;
                        if id != inst_id {
                            assert(location_of(before, id) is Some);
                        }
                    }
                    assert forall|k: int| 0 <= k < i + 1 && self.used_ir@.contains(Rd::Ir((#[trigger] fun.blocks@[b as int].instruction@[k]).id))
                        implies location_of(self.registers@, fun.blocks@[b as int].instruction@[k].id) is Some by {
                        let id = fun.blocks@[b as int].instruction@[k].id;
                        if id != inst_id {
                            assert(location_of(before, id) is Some);
                        }
                    }
                }
                i += 1;
            }
            b += 1;
        }
    }

    /// Records the registers in use at the instruction `id`.
    fn set_used(&mut self, id: InstUUID, regs: Vec<usize>)
        ensures
            forall|x: InstUUID| #[trigger] used_at(final(self).used@, x) == if x == id {
                Some(regs@)
            } else {
                used_at(old(self).used@, x)
            },
            final(self).registers == old(self).registers,
            final(self).freeowned == old(self).freeowned,
            final(self).used_register == old(self).used_register,
            final(self).release == old(self).release,
            final(self).used_ir == old(self).used_ir,
            final(self).stacksize == old(self).stacksize,
            final(self).liveness == old(self).liveness,
    {
        let mut k: usize = 0;
        while k < self.used.len()
            invariant
                0 <= k <= self.used@.len(),
                self.registers == old(self).registers,
                self.freeowned == old(self).freeowned,
                self.used_register == old(self).used_register,
                self.release == old(self).release,
                self.used_ir == old(self).used_ir,
                self.stacksize == old(self).stacksize,
                self.liveness == old(self).liveness,
                self.used == old(self).used,
                forall|j: int| 0 <= j < k ==> (#[trigger] self.used@[j]).0 != id,
            decreases self.used@.len() - k,
        {
            if self.used[k].0 == id {
                let ghost before = self.used@;
                let ghost e = (id, regs);
                let mut entries: Vec<(InstUUID, Vec<usize>)> = Vec::new();
                std::mem::swap(&mut entries, &mut self.used);
                entries.remove(k);
                entries.insert(k, (id, regs));
                std::mem::swap(&mut entries, &mut self.used);
                proof {
                    assert(self.used@ =~= before.update(k as int, e));
                    assert forall|x: InstUUID| #[trigger] used_at(self.used@, x) == if x == id {
                        Some(e.1@)
                    } else {
                        used_at(before, x)
                    } by {
                        lemma_used_at_update(before, k as int, e, x);
                    }
                }
                return;
            }
            k += 1;
        }
        let ghost before = self.used@;
        let ghost e = (id, regs);
        self.used.push((id, regs));
        proof {
            assert forall|x: InstUUID| #[trigger] used_at(self.used@, x) == if x == id {
                Some(e.1@)
            } else {
                used_at(before, x)
            } by {
                lemma_used_at_push(before, e, x);
            }
        }
    }

    fn allocate_reg(&mut self, reg: Register, bb: usize, idx: usize, fun: &Function)
        requires
            old(self).wf(fun.blocks@),
        ensures
            final(self).wf(fun.blocks@),
            final(self).used_ir == old(self).used_ir,
            location_of(final(self).registers@, reg) is Some,
            forall|r: Register| r != reg ==> location_of(final(self).registers@, r) == #[trigger] location_of(old(self).registers@, r),
    {
        let ghost before = self.registers@;
        if self.freeowned.len() == 0 {
            let offset = ValueCell::StackOffset(self.stacksize);
            self.stacksize = self.stacksize.wrapping_add(8);
            set_location(&mut self.registers, reg, offset);
            proof {
                assert forall|k: int| 0 <= k < self.registers@.len() implies cell_ok((#[trigger] self.registers@[k]).1) by {
                    if self.registers@[k] != (reg, offset) {
                        let m = choose|m: int| 0 <= m < before.len() && before[m] == self.registers@[k];
                        assert(cell_ok(before[m].1));
                    }
                }
            }
        } else {
            let reg_name = self.freeowned.pop().unwrap();
            assert(allocatable(reg_name));
            self.used_register.push(reg_name);
            set_location(&mut self.registers, reg, ValueCell::Register(reg_name));
            proof {
                assert forall|k: int| 0 <= k < self.freeowned@.len() implies allocatable(#[trigger] self.freeowned@[k]) by {
                    assert(self.freeowned@[k] == old(self).freeowned@[k]);
                }
                assert forall|k: int| 0 <= k < self.registers@.len() implies cell_ok((#[trigger] self.registers@[k]).1) by {
                    if self.registers@[k] != (reg, ValueCell::Register(reg_name)) {
                        let m = choose|m: int| 0 <= m < before.len() && before[m] == self.registers@[k];
                        assert(cell_ok(before[m].1));
                    }
                }
            }
            self.create_release(reg, bb, idx, fun);
        }
    }

    /// Puts `reg` on the release list of the last instruction, from its definition on,
    /// where it is live.
    fn create_release(&mut self, reg: Register, bb_start: usize, inst_start: usize, fun: &Function)
        requires
            old(self).wf(fun.blocks@),
        ensures
            final(self).wf(fun.blocks@),
            final(self).registers == old(self).registers,
            final(self).used_ir == old(self).used_ir,
            final(self).freeowned == old(self).freeowned,
            final(self).used_register == old(self).used_register,
            final(self).used == old(self).used,
            final(self).liveness == old(self).liveness,
            final(self).stacksize == old(self).stacksize,
            final(self).release@.len() == old(self).release@.len(),
            ({
                let p = release_place(old(self).liveness@, fun.blocks@, reg, bb_start as int, inst_start as int);
                forall|b: int, i: int| 0 <= b < old(self).release@.len() && 0 <= i < old(self).release@[b]@.len()
                    ==> (#[trigger] final(self).release@[b]@[i])@ == if b == p.0 && i == p.1 {
                    old(self).release@[b]@[i]@.push(reg)
                } else {
                    old(self).release@[b]@[i]@
                }
            }),
    {
        let ghost lv = self.liveness@;
        let ghost bs = bb_start as int;
        let ghost is = inst_start as int;
        let mut place = (bb_start, inst_start);
        let mut b: usize = bb_start;
        while b < fun.blocks.len()
            invariant
                bb_start <= b,
                b <= fun.blocks@.len() || b == bb_start,
                lv == self.liveness@,
                bs == bb_start,
                is == inst_start,
                self == old(self),
                (exists|c: int, j: int| c < b && live_candidate(lv, fun.blocks@, reg, bs, is, c, j)) ==> {
                    &&& live_candidate(lv, fun.blocks@, reg, bs, is, place.0 as int, place.1 as int)
                    &&& forall|c: int, j: int| c < b && live_candidate(lv, fun.blocks@, reg, bs, is, c, j) ==> no_later(
                        c,
                        j,
                        place.0 as int,
                        place.1 as int,
                    )
                },
                !(exists|c: int, j: int| c < b && live_candidate(lv, fun.blocks@, reg, bs, is, c, j)) ==> place == (
                    bb_start,
                    inst_start,
                ),
            decreases fun.blocks@.len() - b,
        {
            let mut i: usize = inst_start;
            proof {
                assert forall|c: int, j: int| (c < b || (c == b && j < i)) && live_candidate(lv, fun.blocks@, reg, bs, is, c, j)
                    implies c < b by {}
            }
            while i < fun.blocks[b].instruction.len()
                invariant
                    b < fun.blocks@.len(),
                    bb_start <= b,
                    inst_start <= i,
                    lv == self.liveness@,
                    bs == bb_start,
                    is == inst_start,
                    self == old(self),
                    (exists|c: int, j: int| (c < b || (c == b && j < i)) && live_candidate(lv, fun.blocks@, reg, bs, is, c, j))
                        ==> {
                        &&& live_candidate(lv, fun.blocks@, reg, bs, is, place.0 as int, place.1 as int)
                        &&& forall|c: int, j: int| (c < b || (c == b && j < i)) && live_candidate(lv, fun.blocks@, reg, bs, is, c, j)
                            ==> no_later(c, j, place.0 as int, place.1 as int)
                    },
                    !(exists|c: int, j: int| (c < b || (c == b && j < i)) && live_candidate(lv, fun.blocks@, reg, bs, is, c, j))
                        ==> place == (bb_start, inst_start),
                decreases fun.blocks@[b as int].instruction@.len() - i,
            {
                if b < self.liveness.len() && i < self.liveness[b].len() && contains_reg(&self.liveness[b][i], reg) {
                    place = (b, i);
                    proof {
                        assert(lv[b as int]@[i as int]@.contains(reg));
                        assert(bs <= b < fun.blocks@.len());
                        assert(is <= i < fun.blocks@[b as int].instruction@.len());
                        assert(b < lv.len());
                        assert(live_candidate(lv, fun.blocks@, reg, bs, is, b as int, i as int));
                    }
                }
                proof {
                    if !live_candidate(lv, fun.blocks@, reg, bs, is, b as int, i as int) {
                        assert forall|c: int, j: int| (c < b || (c == b && j < i + 1)) && live_candidate(lv, fun.blocks@, reg, bs, is, c, j)
                            implies (c < b || (c == b && j < i)) by {}
                    }
                }
                i += 1;
            }
            proof {
                assert forall|c: int, j: int| c < b + 1 && live_candidate(lv, fun.blocks@, reg, bs, is, c, j)
                    implies (c < b || (c == b && j < i)) by {}
            }
            b += 1;
        }
        proof {
            assert forall|c: int, j: int| live_candidate(lv, fun.blocks@, reg, bs, is, c, j) implies c < b by {}
            let p = release_place(lv, fun.blocks@, reg, bs, is);
            if exists|c: int, j: int| live_candidate(lv, fun.blocks@, reg, bs, is, c, j) {
                assert(exists|c: int, j: int| c < b && live_candidate(lv, fun.blocks@, reg, bs, is, c, j));
                assert(live_candidate(lv, fun.blocks@, reg, bs, is, p.0, p.1));
                assert(no_later(p.0, p.1, place.0 as int, place.1 as int));
                assert(no_later(place.0 as int, place.1 as int, p.0, p.1));
                assert(p == (place.0 as int, place.1 as int));
            } else {
                assert(!(exists|c: int, j: int| c < b && live_candidate(lv, fun.blocks@, reg, bs, is, c, j)));
            }
        }
        let (pb, pi) = place;
        if pb < self.release.len() && pi < self.release[pb].len() {
            let mut rel: Vec<Vec<Vec<Register>>> = Vec::new();
            std::mem::swap(&mut rel, &mut self.release);
            let mut row = rel.remove(pb);
            let mut list = row.remove(pi);
            list.push(reg);
            row.insert(pi, list);
            rel.insert(pb, row);
            std::mem::swap(&mut rel, &mut self.release);
            proof {
                assert forall|k: int| 0 <= k < self.release@.len() implies (#[trigger] self.release@[k])@.len() == fun.blocks@[k].instruction@.len() by {
                    if k != pb {
                        assert(self.release@[k] == old(self).release@[k]);
                    }
                }
                assert forall|bb: int, i: int| 0 <= bb < old(self).release@.len() && 0 <= i < old(self).release@[bb]@.len()
                    implies (#[trigger] self.release@[bb]@[i])@ == if bb == pb && i == pi {
                    old(self).release@[bb]@[i]@.push(reg)
                } else {
                    old(self).release@[bb]@[i]@
                } by {
                    if bb != pb {
                        assert(self.release@[bb] == old(self).release@[bb]);
                    }
                }
            }
        }
    }

    /// Frees the architectural registers of the registers whose life ends at the
    /// instruction (`bb`, `idx`).
    fn release(&mut self, bb: usize, idx: usize, fun: &Function)
        requires
            old(self).wf(fun.blocks@),
        ensures
            final(self).wf(fun.blocks@),
            final(self).registers == old(self).registers,
            final(self).used_ir == old(self).used_ir,
            final(self).release == old(self).release,
            final(self).used == old(self).used,
            final(self).liveness == old(self).liveness,
            final(self).stacksize == old(self).stacksize,
            ({
                let freed = if bb < old(self).release@.len() && idx < old(self).release@[bb as int]@.len() {
                    held_registers(old(self).registers@, old(self).release@[bb as int]@[idx as int]@)
                } else {
                    Seq::empty()
                };
                &&& final(self).freeowned@ == old(self).freeowned@ + freed
                &&& final(self).used_register@ == without_each(old(self).used_register@, freed)
            }),
    {
        proof {
            assert(old(self).freeowned@ + Seq::<usize>::empty() =~= old(self).freeowned@);
        }
        if bb >= self.release.len() || idx >= self.release[bb].len() {
            return;
        }
        let mut k: usize = 0;
        while k < self.release[bb][idx].len()
            invariant
                self.wf(fun.blocks@),
                self.registers == old(self).registers,
                self.used_ir == old(self).used_ir,
                self.release == old(self).release,
                self.used == old(self).used,
                self.liveness == old(self).liveness,
                self.stacksize == old(self).stacksize,
                bb < self.release@.len(),
                idx < self.release@[bb as int]@.len(),
                0 <= k <= self.release@[bb as int]@[idx as int]@.len(),
                self.freeowned@ == old(self).freeowned@ + held_registers(
                    self.registers@,
                    self.release@[bb as int]@[idx as int]@.take(k as int),
                ),
                self.used_register@ == without_each(
                    old(self).used_register@,
                    held_registers(self.registers@, self.release@[bb as int]@[idx as int]@.take(k as int)),
                ),
            decreases self.release@[bb as int]@[idx as int]@.len() - k,
        {
            let ghost list = self.release@[bb as int]@[idx as int]@;
            let ghost held = held_registers(self.registers@, list.take(k as int));
            proof {
                assert(list.take(k + 1).drop_last() =~= list.take(k as int));
            }
            let rel_reg = self.release[bb][idx][k];
            match find_location(&self.registers, rel_reg) {
                Some(ValueCell::Register(r)) => {
                    proof {
                        lemma_location_member(self.registers@, rel_reg);
                        let m = choose|m: int| 0 <= m < self.registers@.len() && self.registers@[m].1 == ValueCell::Register(r);
                        assert(cell_ok(self.registers@[m].1));
                    }
                    remove_first(&mut self.used_register, r);
                    let ghost pre_free = self.freeowned@;
                    self.freeowned.push(r);
                    proof {
                        assert(held_registers(self.registers@, list.take(k + 1)) =~= held.push(r));
                        assert(held.push(r).drop_last() =~= held);
                        assert(self.freeowned@ =~= old(self).freeowned@ + held.push(r));
                        assert forall|m: int| 0 <= m < self.freeowned@.len() implies allocatable(#[trigger] self.freeowned@[m]) by {
                            if m < pre_free.len() {
                                assert(self.freeowned@[m] == pre_free[m]);
                            }
                        }
                    }
                },
                _ => {
                    proof {
                        assert(held_registers(self.registers@, list.take(k + 1)) =~= held);
                    }
                },
            }
            k += 1;
        }
        proof {
            assert(self.release@[bb as int]@[idx as int]@.take(k as int) =~= self.release@[bb as int]@[idx as int]@);
        }
    }
}

/// Removes the first occurrence of `r` from `v`, if any.
fn remove_first(v: &mut Vec<usize>, r: usize)
    ensures
        final(v)@ == without_first(old(v)@, r),
{
    let mut j: usize = 0;
    while j < v.len()
        invariant
            0 <= j <= v@.len(),
            v@ == old(v)@,
            forall|i: int| 0 <= i < j ==> v@[i] != r,
        decreases v@.len() - j,
    {
        if v[j] == r {
            proof {
                lemma_without_first_at(v@, r, j as int);
            }
            v.remove(j);
            return;
        }
        j += 1;
    }
    proof {
        lemma_without_first_at(v@, r, j as int);
    }
}

proof fn lemma_location_member(regs: Seq<(Register, ValueCell)>, reg: Register)
    requires
        location_of(regs, reg) is Some,
    ensures
        exists|k: int| 0 <= k < regs.len() && regs[k].1 == location_of(regs, reg)->0,
    decreases regs.len(),
{
    if regs[0].0 != reg {
        lemma_location_member(regs.drop_first(), reg);
        let k = choose|k: int| 0 <= k < regs.drop_first().len() && regs.drop_first()[k].1 == location_of(regs.drop_first(), reg)->0;
        assert(regs[k + 1].1 == location_of(regs, reg)->0);
    } else {
        assert(regs[0].1 == location_of(regs, reg)->0);
    }
}

impl RegAllocator for LinearAllocator {
    open spec fn spec_location(&self, reg: Register) -> Option<ValueCell> {
        location_of(self.registers@, reg)
    }

    fn get_location(&self, reg: Register) -> (r: Option<ValueCell>)
        ensures
            r == location_of(self.registers@, reg),
    {
        find_location(&self.registers, reg)
    }

    open spec fn spec_used(&self, place: InstUUID) -> Seq<usize> {
        match used_at(self.used@, place) {
            Some(v) => v,
            None => Seq::empty(),
        }
    }

    /// The registers in use at the instruction; none when it was not seen.
    fn get_used(&self, inst: InstUUID) -> (r: Vec<usize>)
        ensures
            r@ == match used_at(self.used@, inst) {
                Some(v) => v,
                None => Seq::empty(),
            },
    {
        let mut k: usize = 0;
        while k < self.used.len()
            invariant
                0 <= k <= self.used@.len(),
                forall|j: int| 0 <= j < k ==> (#[trigger] self.used@[j]).0 != inst,
            decreases self.used@.len() - k,
        {
            if self.used[k].0 == inst {
                proof {
                    lemma_used_at_found(self.used@, inst, k as int);
                }
                return copy_usizes(&self.used[k].1);
            }
            k += 1;
        }
        proof {
            lemma_used_at_found(self.used@, inst, k as int);
        }
        Vec::new()
    }

    fn get_stacksize(&self) -> (r: usize)
        ensures
            0 <= self.stacksize <= usize::MAX ==> r == self.stacksize,
    {
        if self.stacksize < 0 {
            0
        } else if self.stacksize as u64 > usize::MAX as u64 {
            usize::MAX
        } else {
            self.stacksize as usize
        }
    }
}

/// A graph-colouring allocator, not written.
pub struct ColoringAllocator {}

} // verus!
