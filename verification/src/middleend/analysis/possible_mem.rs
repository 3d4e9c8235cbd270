use vstd::prelude::*;

use crate::middleend::analysis::const_mem::{get_stores, stored_to};
use crate::middleend::analysis::dataflow::{capped, saturating_product, DataFlowAnalysis, DataflowType, InstPos};
use crate::middleend::analysis::lattice::{contains_reg, Lattice, MemoryPlace, PowerSetLattice};
use crate::middleend::analysis::live::{count_positions, same_regs};
use crate::middleend::inst::{InstructionType, RegReg, SymRegs};
use crate::middleend::ir::{blocks_used_regs, Function, Instruction, Register};
use crate::middleend::optimalizations::death_store_load::insts_total;

verus! {

/// The registers of `s` at `i`, none where `s` has no entry.
pub open spec fn at_or_empty(s: Seq<Vec<Register>>, i: int) -> Set<Register> {
    if 0 <= i < s.len() {
        s[i]@.to_set()
    } else {
        Set::empty()
    }
}

/// The lattice of maps from a fixed list of memory places to sets of registers, ordered
/// place by place; a map is the vector of its sets in the order of the places.
pub struct PossibleLattice {
    pub map: Vec<MemoryPlace>,
    pub inner_lattice: PowerSetLattice,
}

impl PossibleLattice {
    pub fn new(map: Vec<MemoryPlace>, inner_lattice: PowerSetLattice) -> (l: Self)
        ensures
            l.map@ == map@,
            l.inner_lattice.set@ == inner_lattice.set@,
    {
        Self { map, inner_lattice }
    }

    /// The position of `place` among the places, if it is one.
    pub fn index_of(&self, place: MemoryPlace) -> (r: Option<usize>)
        ensures
            match r {
                Some(i) => i < self.map@.len() && self.map@[i as int] == place && forall|j: int|
                    0 <= j < i ==> self.map@[j] != place,
                None => !self.map@.contains(place),
            },
    {
        let mut i: usize = 0;
        while i < self.map.len()
            invariant
                0 <= i <= self.map@.len(),
                forall|j: int| 0 <= j < i ==> self.map@[j] != place,
            decreases self.map@.len() - i,
        {
            if self.map[i] == place {
                return Some(i);
            }
            i += 1;
        }
        None
    }
}

impl Lattice<Vec<Vec<Register>>> for PossibleLattice {
    open spec fn is_bot(&self, r: Vec<Vec<Register>>) -> bool {
        &&& r@.len() == self.map@.len()
        &&& forall|i: int| 0 <= i < r@.len() ==> (#[trigger] r@[i])@.len() == 0
    }

    open spec fn is_lub(&self, a: Vec<Vec<Register>>, b: Vec<Vec<Register>>, r: Vec<Vec<Register>>) -> bool {
        &&& r@.len() == self.map@.len()
        &&& forall|i: int| 0 <= i < r@.len() ==> (#[trigger] r@[i])@.to_set() == at_or_empty(a@, i).union(at_or_empty(b@, i))
    }

    fn top(&self) -> (r: Vec<Vec<Register>>)
        ensures
            r@.len() == self.map@.len(),
            forall|i: int| 0 <= i < r@.len() ==> (#[trigger] r@[i])@ == self.inner_lattice.set@,
    {
        let mut out: Vec<Vec<Register>> = Vec::new();
        let mut i: usize = 0;
        while i < self.map.len()
            invariant
                0 <= i <= self.map@.len(),
                out@.len() == i,
                forall|k: int| 0 <= k < i ==> (#[trigger] out@[k])@ == self.inner_lattice.set@,
            decreases self.map@.len() - i,
        {
            out.push(self.inner_lattice.top());
            i += 1;
        }
        out
    }

    fn bot(&self) -> (r: Vec<Vec<Register>>)
        ensures
            r@.len() == self.map@.len(),
            forall|i: int| 0 <= i < r@.len() ==> (#[trigger] r@[i])@.len() == 0,
    {
        let mut out: Vec<Vec<Register>> = Vec::new();
        let mut i: usize = 0;
        while i < self.map.len()
            invariant
                0 <= i <= self.map@.len(),
                out@.len() == i,
                forall|k: int| 0 <= k < i ==> (#[trigger] out@[k])@.len() == 0,
            decreases self.map@.len() - i,
        {
            out.push(self.inner_lattice.bot());
            i += 1;
        }
        out
    }

    fn lub(&self, a: &Vec<Vec<Register>>, b: &Vec<Vec<Register>>) -> (r: Vec<Vec<Register>>)
        ensures
            r@.len() == self.map@.len(),
            forall|i: int| 0 <= i < r@.len() ==> (#[trigger] r@[i])@.to_set() == at_or_empty(a@, i).union(at_or_empty(b@, i)),
    {
        let mut out: Vec<Vec<Register>> = Vec::new();
        let mut i: usize = 0;
        while i < self.map.len()
            invariant
                0 <= i <= self.map@.len(),
                out@.len() == i,
                forall|k: int| 0 <= k < i ==> (#[trigger] out@[k])@.to_set() == at_or_empty(a@, k).union(at_or_empty(b@, k)),
            decreases self.map@.len() - i,
        {
            let empty: Vec<Register> = Vec::new();
            let x = if i < a.len() { &a[i] } else { &empty };
            let y = if i < b.len() { &b[i] } else { &empty };
            proof {
                assert(empty@.to_set() =~= Set::<Register>::empty());
            }
            out.push(self.inner_lattice.lub(x, y));
            i += 1;
        }
        out
    }
}

/// Possible values in memory: at each instruction, for each place stored to, the
/// registers whose values the place may hold.
pub struct PossibleMemAnalysis<'a> {
    pub function: &'a Function,
    pub inner_lattice: PossibleLattice,
}

/// The registers of `regs` without repetitions.
fn distinct_regs(regs: Vec<Register>) -> (r: Vec<Register>)
    ensures
        r@.no_duplicates(),
        r@.to_set() == regs@.to_set(),
{
    let mut out: Vec<Register> = Vec::new();
    let mut i: usize = 0;
    while i < regs.len()
        invariant
            0 <= i <= regs@.len(),
            out@.no_duplicates(),
            forall|x: Register| out@.contains(x) <==> exists|m: int| 0 <= m < i && #[trigger] regs@[m] == x,
        decreases regs@.len() - i,
    {
        let ghost before = out@;
        let x = regs[i];
        if !contains_reg(&out, x) {
            out.push(x);
        }
        proof {
            assert forall|y: Register| out@.contains(y) <==> exists|m: int| 0 <= m < i + 1 && #[trigger] regs@[m] == y by {
                if y == x {
                    assert(regs@[i as int] == y);
                    if !before.contains(y) {
                        assert(out@[out@.len() - 1] == y);
                    }
                } else {
                    if out@.contains(y) {
                        let m = choose|m: int| 0 <= m < out@.len() && out@[m] == y;
                        assert(before[m] == y);
                    }
                    if before.contains(y) {
                        let m = choose|m: int| 0 <= m < before.len() && before[m] == y;
                        assert(out@[m] == y);
                    }
                }
            }
        }
        i += 1;
    }
    proof {
        assert forall|y: Register| out@.to_set().contains(y) <==> regs@.to_set().contains(y) by {
            if regs@.contains(y) {
                let m = choose|m: int| 0 <= m < regs@.len() && regs@[m] == y;
                assert(exists|k: int| 0 <= k < regs@.len() && #[trigger] regs@[k] == y);
            }
        }
        assert(out@.to_set() =~= regs@.to_set());
    }
    out
}

impl<'a> PossibleMemAnalysis<'a> {
    /// The analysis of `function` over the places it stores to and the registers it
    /// reads.
    pub fn new(function: &'a Function) -> (r: Self)
        ensures
            *r.function == *function,
            r.inner_lattice.map@.no_duplicates(),
            forall|p: MemoryPlace| r.inner_lattice.map@.contains(p) <==> stored_to(*function, p),
            r.inner_lattice.inner_lattice.set@.no_duplicates(),
            r.inner_lattice.inner_lattice.set@.to_set() == blocks_used_regs(function.blocks@).to_set(),
    {
        let regs = distinct_regs(function.get_used_regs());
        Self { function, inner_lattice: PossibleLattice::new(get_stores(function), PowerSetLattice::new(regs)) }
    }
}

/// `s` with `reg` added to the set at `i`, when `s` has an entry there.
fn add_at(s: Vec<Vec<Register>>, i: usize, reg: Register) -> (r: Vec<Vec<Register>>)
    ensures
        r@.len() == s@.len(),
        forall|k: int| 0 <= k < s@.len() && k != i ==> #[trigger] r@[k] == s@[k],
        i < s@.len() ==> r@[i as int]@.to_set() == s@[i as int]@.to_set().insert(reg),
{
    let mut s = s;
    if i < s.len() {
        let mut set = s.remove(i);
        let ghost old_set = set@;
        if !contains_reg(&set, reg) {
            set.push(reg);
        }
        proof {
            assert(set@.to_set() =~= old_set.to_set().insert(reg)) by {
                assert forall|x: Register| set@.to_set().contains(x) <==> old_set.to_set().insert(reg).contains(x) by {
                    if set@.contains(x) && x != reg {
                        let m = choose|m: int| 0 <= m < set@.len() && set@[m] == x;
                        assert(old_set[m] == x);
                    }
                    if old_set.contains(x) {
                        let m = choose|m: int| 0 <= m < old_set.len() && old_set[m] == x;
                        assert(set@[m] == x);
                    }
                    if x == reg && !old_set.contains(x) {
                        assert(set@[set@.len() - 1] == x);
                    }
                }
            }
        }
        s.insert(i, set);
    }
    s
}

impl<'a> DataFlowAnalysis<'a, Vec<Vec<Register>>, PossibleLattice> for PossibleMemAnalysis<'a> {
    open spec fn spec_function(&self) -> Function {
        *self.function
    }

    open spec fn spec_lattice(&self) -> PossibleLattice {
        self.inner_lattice
    }

    fn inner_lattice(&self) -> (r: &PossibleLattice)
        ensures
            *r == self.inner_lattice,
    {
        &self.inner_lattice
    }

    fn function(&self) -> (r: &Function) {
        self.function
    }

    fn set_function(&mut self, func: &'a Function) {
        *self = PossibleMemAnalysis::new(func);
    }

    open spec fn spec_direction(&self) -> DataflowType {
        DataflowType::Forwards
    }

    open spec fn spec_same(&self, a: Vec<Vec<Register>>, b: Vec<Vec<Register>>) -> bool {
        a@.len() == b@.len() && forall|k: int| 0 <= k < a@.len() ==> (#[trigger] a@[k])@.to_set() == b@[k]@.to_set()
    }

    fn direction(&self) -> (r: DataflowType)
        ensures
            r == DataflowType::Forwards,
    {
        DataflowType::Forwards
    }

    open spec fn spec_transfer(&self) -> spec_fn(Instruction, InstPos, Vec<Vec<Register>>, Vec<Vec<Register>>) -> bool {
        |inst: Instruction, pos: InstPos, state: Vec<Vec<Register>>, r: Vec<Vec<Register>>| {
            &&& (inst.data matches InstructionType::St(RegReg(addr, reg)) ==> {
                    &&& r@.len() == state@.len()
                    &&& forall|k: int| 0 <= k < state@.len() ==> (#[trigger] r@[k])@.to_set() == if k < self.inner_lattice.map@.len() && self.inner_lattice.map@[k] == MemoryPlace(addr) && forall|j: int| 0 <= j < k ==> self.inner_lattice.map@[j] != MemoryPlace(addr) {
                        state@[k]@.to_set().insert(reg)
                    } else {
                        state@[k]@.to_set()
                    }
                })
            &&& (!(inst.data is St || inst.data is CallDirect) && !(pos.1 == 0 && pos.2 == 0) ==> r@ == state@)
            &&& (!(inst.data is St || inst.data is CallDirect) && pos.1 == 0 && pos.2 == 0 ==> r@.len() == self.inner_lattice.map@.len()
                    && forall|k: int| 0 <= k < r@.len() ==> (#[trigger] r@[k])@.len() == 0)
        }
    }

    /// A store adds the stored register to its place; a call that gets a place's
    /// address makes the place hold any register; the first instruction of the
    /// function starts from the least state; anything else keeps the state.
    fn transfer_fun(&self, inst: &Instruction, pos: InstPos, state: Vec<Vec<Register>>) -> (r: Vec<Vec<Register>>)
    {
        match &inst.data {
            InstructionType::St(RegReg(addr, reg)) => {
                match self.inner_lattice.index_of(MemoryPlace(*addr)) {
                    Some(i) => add_at(state, i, *reg),
                    None => state,
                }
            },
            InstructionType::CallDirect(SymRegs(_, regs)) => {
                let mut s = state;
                let mut i: usize = 0;
                while i < regs.len()
                    invariant
                        0 <= i <= regs@.len(),
                    decreases regs@.len() - i,
                {
                    match self.inner_lattice.index_of(MemoryPlace(regs[i])) {
                        Some(k) => {
                            if k < s.len() {
                                s.set(k, self.inner_lattice.inner_lattice.top());
                            }
                        },
                        None => {},
                    }
                    i += 1;
                }
                s
            },
            _ => {
                if pos.1 == 0 && pos.2 == 0 {
                    self.inner_lattice.bot()
                } else {
                    state
                }
            },
        }
    }

    fn same(&self, a: &Vec<Vec<Register>>, b: &Vec<Vec<Register>>) -> (r: bool)
        ensures
            r == (a@.len() == b@.len() && forall|k: int| 0 <= k < a@.len() ==> (#[trigger] a@[k])@.to_set() == b@[k]@.to_set()),
    {
        if a.len() != b.len() {
            return false;
        }
        let mut i: usize = 0;
        while i < a.len()
            invariant
                0 <= i <= a@.len(),
                a@.len() == b@.len(),
                forall|k: int| 0 <= k < i ==> (#[trigger] a@[k])@.to_set() == b@[k]@.to_set(),
            decreases a@.len() - i,
        {
            if !same_regs(&a[i], &b[i]) {
                return false;
            }
            i += 1;
        }
        true
    }

    open spec fn spec_rounds(&self) -> int {
        capped(
            capped(
                capped(insts_total(self.function.blocks@)) * capped(
                    self.inner_lattice.map@.len() as int * capped(self.inner_lattice.inner_lattice.set@.len() + 1int),
                ),
            ) + 1,
        )
    }

    fn rounds(&self) -> (r: usize)
    {
        saturating_product(
            count_positions(self.function),
            saturating_product(self.inner_lattice.map.len(), self.inner_lattice.inner_lattice.set.len().saturating_add(1)),
        ).saturating_add(1)
    }
}

} // verus!
