use vstd::prelude::*;

use crate::middleend::analysis::dataflow::{capped, saturating_product, DataFlowAnalysis, DataflowType, InstPos};
use crate::middleend::analysis::lattice::{FlatElem, FlatLattice, Lattice, MapLattice, MemoryPlace};
use crate::middleend::analysis::live::count_positions;
use crate::middleend::inst::{ImmIRegs, InstructionType, RegReg, SymRegs};
use crate::middleend::ir::{Function, Instruction, Register};
use crate::middleend::optimalizations::death_store_load::insts_total;

verus! {

/// Whether the instruction `i` stores to the place `p`.
pub open spec fn store_place(i: InstructionType, p: MemoryPlace) -> bool {
    i matches InstructionType::St(RegReg(a, _)) && p == MemoryPlace(a)
}

/// Whether some instruction of `f` stores to the place `p`.
pub open spec fn stored_to(f: Function, p: MemoryPlace) -> bool {
    exists|b: int, i: int| 0 <= b < f.blocks@.len() && 0 <= i < f.blocks@[b].instruction@.len()
        && store_place((#[trigger] f.blocks@[b].instruction@[i]).data, p)
}

/// The places stored to in `f`, each once.
pub fn get_stores(function: &Function) -> (r: Vec<MemoryPlace>)
    ensures
        r@.no_duplicates(),
        forall|p: MemoryPlace| r@.contains(p) <==> stored_to(*function, p),
{
    let mut out: Vec<MemoryPlace> = Vec::new();
    let mut b: usize = 0;
    while b < function.blocks.len()
        invariant
            0 <= b <= function.blocks@.len(),
            out@.no_duplicates(),
            forall|p: MemoryPlace| out@.contains(p) <==> exists|bb: int, i: int| 0 <= bb < b && 0 <= i
                < function.blocks@[bb].instruction@.len() && store_place((#[trigger] function.blocks@[bb].instruction@[i]).data, p),
        decreases function.blocks@.len() - b,
    {
        let mut i: usize = 0;
        while i < function.blocks[b].instruction.len()
            invariant
                0 <= i <= function.blocks@[b as int].instruction@.len(),
                b < function.blocks@.len(),
                out@.no_duplicates(),
                forall|p: MemoryPlace| out@.contains(p) <==> (exists|bb: int, k: int| 0 <= bb < b && 0 <= k
                    < function.blocks@[bb].instruction@.len() && store_place((#[trigger] function.blocks@[bb].instruction@[k]).data, p))
                    || (exists|k: int| 0 <= k < i && store_place((#[trigger] function.blocks@[b as int].instruction@[k]).data, p)),
            decreases function.blocks@[b as int].instruction@.len() - i,
        {
            let ghost before = out@;
            match &function.blocks[b].instruction[i].data {
                InstructionType::St(RegReg(a, _)) => {
                    let p = MemoryPlace(*a);
                    let mut found = false;
                    let mut k: usize = 0;
                    while k < out.len()
                        invariant
                            0 <= k <= out@.len(),
                            found <==> exists|m: int| 0 <= m < k && out@[m] == p,
                        decreases out@.len() - k,
                    {
                        if out[k] == p {
                            found = true;
                        }
                        k += 1;
                    }
                    if !found {
                        out.push(p);
                    }
                    proof {
                        assert forall|q: MemoryPlace| out@.contains(q) <==> (exists|bb: int, m: int| 0 <= bb < b && 0 <= m
                            < function.blocks@[bb].instruction@.len() && store_place((#[trigger] function.blocks@[bb].instruction@[m]).data, q))
                            || (exists|m: int| 0 <= m < i + 1 && store_place((#[trigger] function.blocks@[b as int].instruction@[m]).data, q)) by {
                            if q == p {
                                assert(store_place(function.blocks@[b as int].instruction@[i as int].data, q));
                                if !found {
                                    assert(out@[out@.len() - 1] == p);
                                }
                            } else {
                                if out@.contains(q) {
                                    let m = choose|m: int| 0 <= m < out@.len() && out@[m] == q;
                                    assert(before[m] == q);
                                }
                                if before.contains(q) {
                                    let m = choose|m: int| 0 <= m < before.len() && before[m] == q;
                                    assert(out@[m] == q);
                                }
                            }
                        }
                    }
                },
                _ => {},
            }
            i += 1;
        }
        proof {
            assert forall|p: MemoryPlace| out@.contains(p) <==> exists|bb: int, k: int| 0 <= bb < b + 1 && 0 <= k
                < function.blocks@[bb].instruction@.len() && store_place((#[trigger] function.blocks@[bb].instruction@[k]).data, p) by {
                if exists|bb: int, k: int| 0 <= bb < b + 1 && 0 <= k
                    < function.blocks@[bb].instruction@.len() && store_place((#[trigger] function.blocks@[bb].instruction@[k]).data, p) {
                    let (bb, k) = choose|bb: int, k: int| 0 <= bb < b + 1 && 0 <= k
                        < function.blocks@[bb].instruction@.len() && store_place((#[trigger] function.blocks@[bb].instruction@[k]).data, p);
                    if bb == b {
                        assert(store_place(function.blocks@[b as int].instruction@[k].data, p));
                    }
                }
            }
        }
        b += 1;
    }
    out
}

/// Constant values in memory: at each instruction, for each place stored to, the one
/// register whose value the place surely holds, if there is one.
pub struct ConstantMemoryAnalysis<'a> {
    pub function: &'a Function,
    pub inner_lattice: MapLattice,
}

impl<'a> ConstantMemoryAnalysis<'a> {
    /// The analysis of `function` over the places it stores to.
    pub fn new(function: &'a Function) -> (r: Self)
        ensures
            *r.function == *function,
            r.inner_lattice.map@.no_duplicates(),
            forall|p: MemoryPlace| r.inner_lattice.map@.contains(p) <==> stored_to(*function, p),
    {
        Self { function, inner_lattice: MapLattice::new(get_stores(function), FlatLattice::new()) }
    }
}

/// The state `s` with the value at the place `p` set to `e`, when `p` is a place of the
/// lattice and `s` has a value there.
fn set_place(lat: &MapLattice, s: Vec<FlatElem>, p: MemoryPlace, e: FlatElem) -> (r: Vec<FlatElem>)
    ensures
        r@ == match lat.index_of_spec(p) {
            Some(i) if i < s@.len() => s@.update(i as int, e),
            _ => s@,
        },
{
    let mut s = s;
    match lat.index_of(p) {
        Some(i) => {
            if i < s.len() {
                s.set(i, e);
            }
        },
        None => {},
    }
    s
}

impl MapLattice {
    /// The position of the first occurrence of `p` among the places.
    pub open spec fn index_of_spec(&self, p: MemoryPlace) -> Option<usize> {
        if self.map@.contains(p) {
            Some(choose|i: usize| i < self.map@.len() && self.map@[i as int] == p && forall|j: int|
                0 <= j < i ==> self.map@[j] != p)
        } else {
            None
        }
    }
}

impl<'a> DataFlowAnalysis<'a, Vec<FlatElem>, MapLattice> for ConstantMemoryAnalysis<'a> {
    open spec fn spec_function(&self) -> Function {
        *self.function
    }

    open spec fn spec_lattice(&self) -> MapLattice {
        self.inner_lattice
    }

    fn inner_lattice(&self) -> (r: &MapLattice)
        ensures
            *r == self.inner_lattice,
    {
        &self.inner_lattice
    }

    fn function(&self) -> (r: &Function) {
        self.function
    }

    fn set_function(&mut self, func: &'a Function) {
        *self = ConstantMemoryAnalysis::new(func);
    }

    open spec fn spec_direction(&self) -> DataflowType {
        DataflowType::Forwards
    }

    open spec fn spec_same(&self, a: Vec<FlatElem>, b: Vec<FlatElem>) -> bool {
        a@ == b@
    }

    fn direction(&self) -> (r: DataflowType)
        ensures
            r == DataflowType::Forwards,
    {
        DataflowType::Forwards
    }

    open spec fn spec_transfer(&self) -> spec_fn(Instruction, InstPos, Vec<FlatElem>, Vec<FlatElem>) -> bool {
        |inst: Instruction, pos: InstPos, state: Vec<FlatElem>, r: Vec<FlatElem>| {
            &&& (inst.data matches InstructionType::St(RegReg(addr, reg)) ==> r@ == match self.inner_lattice.index_of_spec(MemoryPlace(addr)) {
                Some(i) if i < state@.len() => state@.update(i as int, FlatElem::Value(reg)),
                _ => state@,
            })
            &&& (!(inst.data is St || inst.data is CallDirect || inst.data is SysCall) ==> r@ == if pos.1 == 0 && pos.2 == 0 {
                Seq::new(self.inner_lattice.map@.len(), |i: int| FlatElem::Bot)
            } else {
                state@
            })
        }
    }

    /// A store makes its place hold the stored register; a call that gets a place's
    /// address makes the place unknown; the first instruction of the function starts
    /// from the least state; anything else keeps the state.
    fn transfer_fun(&self, inst: &Instruction, pos: InstPos, state: Vec<FlatElem>) -> (r: Vec<FlatElem>)
    {
        match &inst.data {
            InstructionType::St(RegReg(addr, reg)) => set_place(&self.inner_lattice, state, MemoryPlace(*addr), FlatElem::Value(*reg)),
            InstructionType::CallDirect(SymRegs(_, regs)) | InstructionType::SysCall(ImmIRegs(_, regs)) => {
                let mut s = state;
                let mut i: usize = 0;
                while i < regs.len()
                    invariant
                        0 <= i <= regs@.len(),
                    decreases regs@.len() - i,
                {
                    s = set_place(&self.inner_lattice, s, MemoryPlace(regs[i]), FlatElem::Top);
                    i += 1;
                }
                s
            },
            _ => {
                if pos.1 == 0 && pos.2 == 0 {
                    let r = self.inner_lattice.bot();
                    assert(r@ =~= Seq::new(self.inner_lattice.map@.len(), |i: int| FlatElem::Bot));
                    r
                } else {
                    state
                }
            },
        }
    }

    fn same(&self, a: &Vec<FlatElem>, b: &Vec<FlatElem>) -> (r: bool)
        ensures
            r == (a@ == b@),
    {
        if a.len() != b.len() {
            return false;
        }
        let mut i: usize = 0;
        while i < a.len()
            invariant
                0 <= i <= a@.len(),
                a@.len() == b@.len(),
                forall|k: int| 0 <= k < i ==> a@[k] == b@[k],
            decreases a@.len() - i,
        {
            if a[i] != b[i] {
                return false;
            }
            i += 1;
        }
        assert(a@ =~= b@);
        true
    }

    open spec fn spec_rounds(&self) -> int {
        capped(
            capped(
                capped(insts_total(self.function.blocks@)) * capped(capped(self.inner_lattice.map@.len() * 2int) + 1),
            ) + 1,
        )
    }

    fn rounds(&self) -> (r: usize)
    {
        saturating_product(count_positions(self.function), saturating_product(self.inner_lattice.map.len(), 2).saturating_add(1)).saturating_add(1)
    }
}

} // verus!
