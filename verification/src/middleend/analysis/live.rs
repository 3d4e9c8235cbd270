use vstd::prelude::*;

use crate::middleend::analysis::analysis::analysis_result;
use crate::middleend::analysis::dataflow::{
    capped, reached, round_of, saturating_product, settled, steps, transferred, DataFlowAnalysis, DataflowType, InstPos,
};
use crate::middleend::analysis::lattice::{contains_reg, Lattice, PowerSetLattice};
use crate::middleend::inst::{regs_of, InstructionType};
use crate::middleend::ir::{Function, Instruction, Register};
use crate::middleend::optimalizations::death_store_load::{insts_total, lemma_movs_total_nonneg};

verus! {

/// Whether `r` is what the live register analysis of `f` gives: an analysis of `f` over
/// the registers that `f` defines, each listed once.
pub open spec fn liveness_of<'a>(f: Function, r: Seq<Vec<Vec<Register>>>) -> bool {
    exists|d: LiveRegisterAnalysis<'a>| *d.function == f && d.inner_lattice.set@.no_duplicates() && (forall|x: Register|
        d.inner_lattice.set@.contains(x) <==> defines(f, x)) && #[trigger] analysis_result(d, r)
}

/// Before an instruction that is no return of nothing, every register it reads is live:
/// the transfer keeps all of them in the fact before it, whatever is live after it.
pub proof fn law_reads_live_transfer(d: LiveRegisterAnalysis, inst: Instruction, pos: InstPos, after: Vec<Register>, before: Vec<Register>)
    requires
        (d.spec_transfer())(inst, pos, after, before),
        !(inst.data is Ret || inst.data is Exit),
    ensures
        regs_of(inst.data).to_set().subset_of(before@.to_set()),
{
}

/// Whatever is live after an instruction other than a return and other than the register it
/// defines stays live before it.
pub proof fn law_live_flows_back(d: LiveRegisterAnalysis, inst: Instruction, pos: InstPos, after: Vec<Register>, before: Vec<Register>, x: Register)
    requires
        (d.spec_transfer())(inst, pos, after, before),
        !(inst.data is Ret || inst.data is Exit || inst.data is Retr),
        after@.contains(x),
        x != inst.id,
    ensures
        before@.contains(x),
{
    assert(after@.to_set().contains(x));
    assert(before@.to_set().contains(x));
}

/// The analysis runs at least one round.
pub proof fn lemma_live_rounds(d: LiveRegisterAnalysis)
    ensures
        d.spec_rounds() >= 1,
{
    lemma_movs_total_nonneg(d.function.blocks@);
    let a = capped(insts_total(d.function.blocks@));
    let b = capped(d.inner_lattice.set@.len() + 1int);
    assert(a >= 0 && b >= 0);
    assert(a * b >= 0) by (nonlinear_arith)
        requires
            a >= 0,
            b >= 0,
    ;
}

/// In the result of the live register analysis of `f`, every register that an
/// instruction other than a return of nothing reads is live just before it.
pub proof fn law_reads_live(f: Function, facts: Seq<Vec<Vec<Register>>>, b: int, i: int)
    requires
        liveness_of(f, facts),
        0 <= b < f.blocks@.len(),
        0 <= i < f.blocks@[b].instruction@.len(),
        !(f.blocks@[b].instruction@[i].data is Ret || f.blocks@[b].instruction@[i].data is Exit),
    ensures
        b < facts.len() && i < facts[b]@.len(),
        regs_of(f.blocks@[b].instruction@[i].data).to_set().subset_of(facts[b]@[i]@.to_set()),
{
    let d = choose|d: LiveRegisterAnalysis| *d.function == f && d.inner_lattice.set@.no_duplicates() && (forall|x: Register|
        d.inner_lattice.set@.contains(x) <==> defines(f, x)) && #[trigger] analysis_result(d, facts);
    let fl = d.spec_function();
    let l = d.spec_lattice();
    let dir = d.spec_direction();
    let tr = d.spec_transfer();
    let n = choose|n: nat| #[trigger] reached(fl, l, dir, tr, facts, n) && n <= d.spec_rounds() && (n == d.spec_rounds()
        || settled(fl, l, dir, tr, |a: Vec<Register>, c: Vec<Register>| d.spec_same(a, c), facts, n));
    lemma_live_rounds(d);
    assert(n > 0);
    let p = choose|p: Seq<Vec<Vec<Register>>>| reached(fl, l, dir, tr, p, (n - 1) as nat) && #[trigger] round_of(fl, l, dir, tr, p, facts);
    assert(round_of(fl, l, dir, tr, p, facts));
    assert(fl == f);
    assert(f.blocks@.len() == f.blocks.len());
    assert(f.blocks@[b].instruction@.len() == f.blocks@[b].instruction.len());
    let pos: InstPos = (false, b as usize, i as usize);
    assert(transferred(fl, l, dir, tr, p, pos, facts[b]@[i]));
    let j = choose|j: Vec<Register>| crate::middleend::analysis::dataflow::lub_chain(
        l,
        crate::middleend::analysis::dataflow::facts_at(p, crate::middleend::analysis::dataflow::before_positions(fl, dir, pos)),
        j,
    ) && #[trigger] steps(tr, fl.blocks@[pos.1 as int].instruction@[pos.2 as int], pos, j, facts[b]@[i]);
    assert(pos.1 as int == b && pos.2 as int == i);
    assert(steps(tr, f.blocks@[b].instruction@[i], pos, j, facts[b]@[i]));
    assert(tr(f.blocks@[b].instruction@[i], pos, j, facts[b]@[i]));
    law_reads_live_transfer(d, f.blocks@[b].instruction@[i], pos, j, facts[b]@[i]);
}

/// Number of instructions of a function, as far as a `usize` counts.
pub fn count_positions(f: &Function) -> (r: usize)
    ensures
        r == capped(insts_total(f.blocks@)),
{
    let mut total: usize = 0;
    let mut b: usize = 0;
    while b < f.blocks.len()
        invariant
            0 <= b <= f.blocks@.len(),
            total == capped(insts_total(f.blocks@.take(b as int))),
        decreases f.blocks@.len() - b,
    {
        proof {
            assert(f.blocks@.take(b + 1).drop_last() =~= f.blocks@.take(b as int));
            lemma_insts_total_nonneg(f.blocks@.take(b as int));
        }
        total = total.saturating_add(f.blocks[b].instruction.len());
        b += 1;
    }
    proof {
        assert(f.blocks@.take(f.blocks@.len() as int) =~= f.blocks@);
    }
    total
}

proof fn lemma_insts_total_nonneg(blocks: Seq<crate::middleend::ir::BasicBlock>)
    ensures
        insts_total(blocks) >= 0,
    decreases blocks.len(),
{
    if blocks.len() > 0 {
        lemma_insts_total_nonneg(blocks.drop_last());
    }
}

/// Registers defined by the instructions of `f`, each once.
pub open spec fn defines(f: Function, r: Register) -> bool {
    exists|b: int, i: int| 0 <= b < f.blocks@.len() && 0 <= i < f.blocks@[b].instruction@.len()
        && (#[trigger] f.blocks@[b].instruction@[i]).id == r
}

/// Liveness of registers: at each instruction, the registers whose values may still be
/// read on some path from it.
pub struct LiveRegisterAnalysis<'a> {
    pub function: &'a Function,
    pub inner_lattice: PowerSetLattice,
}

impl<'a> LiveRegisterAnalysis<'a> {
    /// The analysis of `function` over the registers it defines.
    pub fn new(function: &'a Function) -> (r: Self)
        ensures
            *r.function == *function,
            r.inner_lattice.set@.no_duplicates(),
            forall|x: Register| r.inner_lattice.set@.contains(x) <==> defines(*function, x),
    {
        let mut regs: Vec<Register> = Vec::new();
        let mut b: usize = 0;
        while b < function.blocks.len()
            invariant
                0 <= b <= function.blocks@.len(),
                regs@.no_duplicates(),
                forall|x: Register| regs@.contains(x) <==> exists|bb: int, i: int| 0 <= bb < b && 0 <= i
                    < function.blocks@[bb].instruction@.len() && (#[trigger] function.blocks@[bb].instruction@[i]).id == x,
            decreases function.blocks@.len() - b,
        {
            let mut i: usize = 0;
            while i < function.blocks[b].instruction.len()
                invariant
                    0 <= i <= function.blocks@[b as int].instruction@.len(),
                    b < function.blocks@.len(),
                    regs@.no_duplicates(),
                    forall|x: Register| regs@.contains(x) <==> (exists|bb: int, k: int| 0 <= bb < b && 0 <= k
                        < function.blocks@[bb].instruction@.len() && (#[trigger] function.blocks@[bb].instruction@[k]).id == x)
                        || (exists|k: int| 0 <= k < i && (#[trigger] function.blocks@[b as int].instruction@[k]).id == x),
                decreases function.blocks@[b as int].instruction@.len() - i,
            {
                let id = function.blocks[b].instruction[i].id;
                let ghost before = regs@;
                if !contains_reg(&regs, id) {
                    regs.push(id);
                }
                proof {
                    assert forall|x: Register| regs@.contains(x) <==> (exists|bb: int, k: int| 0 <= bb < b && 0 <= k
                        < function.blocks@[bb].instruction@.len() && (#[trigger] function.blocks@[bb].instruction@[k]).id == x)
                        || (exists|k: int| 0 <= k < i + 1 && (#[trigger] function.blocks@[b as int].instruction@[k]).id == x) by {
                        if x == id {
                            assert(function.blocks@[b as int].instruction@[i as int].id == x);
                            if !before.contains(id) {
                                assert(regs@[regs@.len() - 1] == id);
                            }
                        } else {
                            if regs@.contains(x) {
                                let k = choose|k: int| 0 <= k < regs@.len() && regs@[k] == x;
                                assert(before[k] == x);
                            }
                            if before.contains(x) {
                                let k = choose|k: int| 0 <= k < before.len() && before[k] == x;
                                assert(regs@[k] == x);
                            }
                        }
                    }
                }
                i += 1;
            }
            proof {
                assert forall|x: Register| regs@.contains(x) <==> exists|bb: int, k: int| 0 <= bb < b + 1 && 0 <= k
                    < function.blocks@[bb].instruction@.len() && (#[trigger] function.blocks@[bb].instruction@[k]).id == x by {
                    if exists|bb: int, k: int| 0 <= bb < b + 1 && 0 <= k
                        < function.blocks@[bb].instruction@.len() && (#[trigger] function.blocks@[bb].instruction@[k]).id == x {
                        let (bb, k) = choose|bb: int, k: int| 0 <= bb < b + 1 && 0 <= k
                            < function.blocks@[bb].instruction@.len() && (#[trigger] function.blocks@[bb].instruction@[k]).id == x;
                        if bb == b {
                            assert(function.blocks@[b as int].instruction@[k].id == x);
                        }
                    }
                }
            }
            b += 1;
        }
        let inner_lattice = PowerSetLattice::new(regs);
        Self { function, inner_lattice }
    }
}

/// The registers of `s` but `r`.
fn remove_reg(s: Vec<Register>, r: Register) -> (out: Vec<Register>)
    ensures
        out@.to_set() == s@.to_set().remove(r),
{
    let mut out: Vec<Register> = Vec::new();
    let mut i: usize = 0;
    while i < s.len()
        invariant
            0 <= i <= s@.len(),
            out@.to_set() == s@.take(i as int).to_set().remove(r),
        decreases s@.len() - i,
    {
        let ghost before = out@;
        if s[i] != r {
            out.push(s[i]);
        }
        proof {
            assert(s@.take(i + 1) =~= s@.take(i as int).push(s@[i as int]));
            assert(out@.to_set() =~= s@.take(i + 1).to_set().remove(r)) by {
                assert forall|x: Register| out@.to_set().contains(x) <==> s@.take(i + 1).to_set().remove(r).contains(x) by {
                    if out@.contains(x) {
                        let k = choose|k: int| 0 <= k < out@.len() && out@[k] == x;
                        if k < before.len() {
                            assert(before[k] == x);
                            assert(before.to_set().contains(x));
                            let m = choose|m: int| 0 <= m < i && #[trigger] s@.take(i as int)[m] == x;
                            assert(s@.take(i + 1)[m] == x);
                        } else {
                            assert(s@.take(i + 1)[i as int] == x);
                        }
                    }
                    if s@.take(i + 1).contains(x) && x != r {
                        let m = choose|m: int| 0 <= m < i + 1 && #[trigger] s@.take(i + 1)[m] == x;
                        if m < i {
                            assert(s@.take(i as int)[m] == x);
                            assert(before.to_set().contains(x));
                            let k = choose|k: int| 0 <= k < before.len() && before[k] == x;
                            assert(out@[k] == x);
                        } else {
                            assert(out@[out@.len() - 1] == x);
                        }
                    }
                }
            }
        }
        i += 1;
    }
    assert(s@.take(s@.len() as int) =~= s@);
    out
}

/// The registers of `s` together with those of `extra`.
fn add_regs(s: Vec<Register>, extra: &Vec<Register>) -> (out: Vec<Register>)
    ensures
        out@.to_set() == s@.to_set().union(extra@.to_set()),
{
    let lat = PowerSetLattice::new(Vec::new());
    lat.lub(&s, extra)
}

/// Whether two vectors hold the same registers.
pub fn same_regs(a: &Vec<Register>, b: &Vec<Register>) -> (r: bool)
    ensures
        r == (a@.to_set() == b@.to_set()),
{
    let mut i: usize = 0;
    while i < a.len()
        invariant
            0 <= i <= a@.len(),
            forall|k: int| 0 <= k < i ==> b@.contains(#[trigger] a@[k]),
        decreases a@.len() - i,
    {
        if !contains_reg(b, a[i]) {
            proof {
                assert(a@.to_set().contains(a@[i as int]));
                assert(!b@.to_set().contains(a@[i as int]));
            }
            return false;
        }
        i += 1;
    }
    let mut j: usize = 0;
    while j < b.len()
        invariant
            0 <= j <= b@.len(),
            forall|k: int| 0 <= k < a@.len() ==> b@.contains(#[trigger] a@[k]),
            forall|k: int| 0 <= k < j ==> a@.contains(#[trigger] b@[k]),
        decreases b@.len() - j,
    {
        if !contains_reg(a, b[j]) {
            proof {
                assert(b@.to_set().contains(b@[j as int]));
                assert(!a@.to_set().contains(b@[j as int]));
            }
            return false;
        }
        j += 1;
    }
    proof {
        assert forall|x: Register| a@.to_set().contains(x) <==> b@.to_set().contains(x) by {
            if a@.contains(x) {
                let k = choose|k: int| 0 <= k < a@.len() && a@[k] == x;
                assert(b@.contains(a@[k]));
            }
            if b@.contains(x) {
                let k = choose|k: int| 0 <= k < b@.len() && b@[k] == x;
                assert(a@.contains(b@[k]));
            }
        }
        assert(a@.to_set() =~= b@.to_set());
    }
    true
}

impl<'a> DataFlowAnalysis<'a, Vec<Register>, PowerSetLattice> for LiveRegisterAnalysis<'a> {
    open spec fn spec_function(&self) -> Function {
        *self.function
    }

    open spec fn spec_lattice(&self) -> PowerSetLattice {
        self.inner_lattice
    }

    fn inner_lattice(&self) -> (r: &PowerSetLattice)
        ensures
            *r == self.inner_lattice,
    {
        &self.inner_lattice
    }

    fn function(&self) -> (r: &Function) {
        self.function
    }

    fn set_function(&mut self, func: &'a Function) {
        *self = LiveRegisterAnalysis::new(func);
    }

    open spec fn spec_direction(&self) -> DataflowType {
        DataflowType::Backwards
    }

    open spec fn spec_same(&self, a: Vec<Register>, b: Vec<Register>) -> bool {
        a@.to_set() == b@.to_set()
    }

    fn direction(&self) -> (r: DataflowType)
        ensures
            r == DataflowType::Backwards,
    {
        DataflowType::Backwards
    }

    open spec fn spec_transfer(&self) -> spec_fn(Instruction, InstPos, Vec<Register>, Vec<Register>) -> bool {
        |inst: Instruction, pos: InstPos, state: Vec<Register>, r: Vec<Register>| {
            r@.to_set() == match inst.data {
                InstructionType::Ret(_) | InstructionType::Exit(_) => Set::<Register>::empty(),
                InstructionType::Retr(_) => regs_of(inst.data).to_set(),
                _ => state@.to_set().remove(inst.id).union(regs_of(inst.data).to_set()),
            }
        }
    }

    /// Nothing is live before a return; before a return of a value, only that value;
    /// before any other instruction, what is live after it, but the register it
    /// defines, and what it reads.
    fn transfer_fun(&self, inst: &Instruction, pos: InstPos, state: Vec<Register>) -> (r: Vec<Register>)
    {
        match &inst.data {
            InstructionType::Ret(_) | InstructionType::Exit(_) => {
                let r: Vec<Register> = Vec::new();
                assert(r@.to_set() =~= Set::<Register>::empty());
                r
            },
            InstructionType::Retr(_) => inst.data.get_regs(),
            _ => {
                let s = remove_reg(state, inst.id);
                add_regs(s, &inst.data.get_regs())
            },
        }
    }

    fn same(&self, a: &Vec<Register>, b: &Vec<Register>) -> (r: bool)
        ensures
            r == (a@.to_set() == b@.to_set()),
    {
        same_regs(a, b)
    }

    open spec fn spec_rounds(&self) -> int {
        capped(
            capped(capped(insts_total(self.function.blocks@)) * capped(self.inner_lattice.set@.len() + 1int)) + 1,
        )
    }

    fn rounds(&self) -> (r: usize)
    {
        saturating_product(count_positions(self.function), self.inner_lattice.set.len().saturating_add(1)).saturating_add(1)
    }
}

} // verus!
