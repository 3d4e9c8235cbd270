use vstd::prelude::*;

use crate::middleend::analysis::cubicsolver::{Cell, CubicSolver, Place};
use crate::middleend::analysis::lattice::contains_reg;
use crate::middleend::inst::{InstructionType, Reg, RegReg, RegRegImm};
use crate::middleend::ir::{distinct_keys, Function, Instruction, Register};

verus! {

/// Whether `a` is the address of a load or a store of `f`.
pub open spec fn memory_address(f: Function, a: Register) -> bool {
    exists|b: int, i: int| 0 <= b < f.blocks@.len() && 0 <= i < f.blocks@[b].instruction@.len()
        && #[trigger] accesses(f.blocks@[b].instruction@[i].data, a)
}

/// Whether the instruction `i` loads from or stores to the address in `a`.
pub open spec fn accesses(i: InstructionType, a: Register) -> bool {
    (i matches InstructionType::St(RegReg(x, _)) && x == a) || (i matches InstructionType::Ld(Reg(x)) && x == a)
}

/// Whether the cell `c` stands for something the function can point into: volatile
/// memory, or the allocation made by one of its `alloca` or `allocg` instructions.
pub open spec fn allocation_cell(f: Function, c: Cell) -> bool {
    ||| c is Volatile
    ||| exists|b: int, i: int| 0 <= b < f.blocks@.len() && 0 <= i < f.blocks@[b].instruction@.len()
        && ((#[trigger] f.blocks@[b].instruction@[i]).data is Alloca || f.blocks@[b].instruction@[i].data is Allocg)
        && c == Cell::Alloc(f.blocks@[b].instruction@[i].id)
}

/// Andersen's points-to analysis of a function: for each register, the allocations its
/// value may point into.
pub struct AndersenAnalysis<'a> {
    pub function: &'a Function,
    pub memory: Option<Vec<Register>>,
}

impl<'a> AndersenAnalysis<'a> {
    /// The addresses kept, once computed, are exactly those the function accesses memory
    /// through.
    pub open spec fn memory_ok(&self) -> bool {
        self.memory matches Some(m) ==> forall|a: Register| m@.contains(a) <==> memory_address(*self.function, a)
    }

    pub fn new(function: &'a Function) -> (r: Self)
        ensures
            *r.function == *function,
            r.memory is None,
            r.memory_ok(),
    {
        Self { function, memory: None }
    }

    /// The addresses the function loads from or stores to, each once; computed once.
    fn get_memory(&mut self) -> (r: Vec<Register>)
        requires
            old(self).memory matches Some(m) ==> forall|a: Register| m@.contains(a) <==> memory_address(*old(self).function, a),
        ensures
            final(self).function == old(self).function,
            final(self).memory matches Some(m) && m@ == r@,
            forall|a: Register| r@.contains(a) <==> memory_address(*old(self).function, a),
    {
        if let Some(m) = &self.memory {
            let mut out: Vec<Register> = Vec::new();
            let mut k: usize = 0;
            while k < m.len()
                invariant
                    0 <= k <= m@.len(),
                    out@ == m@.take(k as int),
                decreases m@.len() - k,
            {
                out.push(m[k]);
                k += 1;
            }
            assert(out@ =~= m@);
            return out;
        }
        let f = self.function;
        let mut mem: Vec<Register> = Vec::new();
        let mut b: usize = 0;
        while b < f.blocks.len()
            invariant
                0 <= b <= f.blocks@.len(),
                forall|a: Register| mem@.contains(a) <==> exists|bb: int, i: int| 0 <= bb < b && 0 <= i
                    < f.blocks@[bb].instruction@.len() && #[trigger] accesses(f.blocks@[bb].instruction@[i].data, a),
            decreases f.blocks@.len() - b,
        {
            let mut i: usize = 0;
            while i < f.blocks[b].instruction.len()
                invariant
                    0 <= i <= f.blocks@[b as int].instruction@.len(),
                    b < f.blocks@.len(),
                    forall|a: Register| mem@.contains(a) <==> (exists|bb: int, k: int| 0 <= bb < b && 0 <= k
                        < f.blocks@[bb].instruction@.len() && #[trigger] accesses(f.blocks@[bb].instruction@[k].data, a))
                        || (exists|k: int| 0 <= k < i && #[trigger] accesses(f.blocks@[b as int].instruction@[k].data, a)),
                decreases f.blocks@[b as int].instruction@.len() - i,
            {
                let addr = match &f.blocks[b].instruction[i].data {
                    InstructionType::St(RegReg(a, _)) => Some(*a),
                    InstructionType::Ld(Reg(a)) => Some(*a),
                    _ => None,
                };
                let ghost before = mem@;
                if let Some(a) = addr {
                    if !contains_reg(&mem, a) {
                        mem.push(a);
                    }
                }
                proof {
                    assert forall|x: Register| mem@.contains(x) <==> (exists|bb: int, k: int| 0 <= bb < b && 0 <= k
                        < f.blocks@[bb].instruction@.len() && #[trigger] accesses(f.blocks@[bb].instruction@[k].data, x))
                        || (exists|k: int| 0 <= k < i + 1 && #[trigger] accesses(f.blocks@[b as int].instruction@[k].data, x)) by {
                        if addr == Some(x) {
                            assert(accesses(f.blocks@[b as int].instruction@[i as int].data, x));
                            if !before.contains(x) {
                                assert(mem@[mem@.len() - 1] == x);
                            }
                        } else {
                            assert(!accesses(f.blocks@[b as int].instruction@[i as int].data, x));
                            if mem@.contains(x) {
                                let m = choose|m: int| 0 <= m < mem@.len() && mem@[m] == x;
                                assert(before[m] == x);
                            }
                            if before.contains(x) {
                                let m = choose|m: int| 0 <= m < before.len() && before[m] == x;
                                assert(mem@[m] == x);
                            }
                        }
                    }
                }
                i += 1;
            }
            proof {
                assert forall|x: Register| mem@.contains(x) <==> exists|bb: int, k: int| 0 <= bb < b + 1 && 0 <= k
                    < f.blocks@[bb].instruction@.len() && #[trigger] accesses(f.blocks@[bb].instruction@[k].data, x) by {
                    if exists|bb: int, k: int| 0 <= bb < b + 1 && 0 <= k
                        < f.blocks@[bb].instruction@.len() && #[trigger] accesses(f.blocks@[bb].instruction@[k].data, x) {
                        let (bb, k) = choose|bb: int, k: int| 0 <= bb < b + 1 && 0 <= k
                            < f.blocks@[bb].instruction@.len() && #[trigger] accesses(f.blocks@[bb].instruction@[k].data, x);
                        if bb == b {
                            assert(accesses(f.blocks@[b as int].instruction@[k].data, x));
                        }
                    }
                }
            }
            b += 1;
        }
        let mut copy: Vec<Register> = Vec::new();
        let mut k: usize = 0;
        while k < mem.len()
            invariant
                0 <= k <= mem@.len(),
                copy@ == mem@.take(k as int),
            decreases mem@.len() - k,
        {
            copy.push(mem[k]);
            k += 1;
        }
        assert(copy@ =~= mem@);
        self.memory = Some(copy);
        mem
    }

    /// Adds the constraints of one instruction.
    fn analyze_inst(&mut self, inst: &Instruction, solver: &mut CubicSolver)
        requires
            old(solver).wf(),
            old(solver).pending_held(),
            old(self).memory matches Some(m) ==> forall|a: Register| m@.contains(a) <==> memory_address(*old(self).function, a),
        ensures
            final(solver).wf(),
            final(solver).pending_held(),
            forall|s: Cell, p: Place| #[trigger] final(solver).holds(s, p) ==> old(solver).placed_somewhere(s)
                || (inst.data is Arg && s == Cell::Volatile)
                || ((inst.data is Alloca || inst.data is Allocg) && s == Cell::Alloc(inst.id)),
            final(self).function == old(self).function,
            final(self).memory matches Some(m) ==> forall|a: Register| m@.contains(a) <==> memory_address(*old(self).function, a),
            forall|s: Cell, p: Place| old(solver).holds(s, p) ==> final(solver).holds(s, p),
            inst.data is Alloca ==> final(solver).holds(Cell::Alloc(inst.id), Place::Register(inst.id)),
            inst.data is Arg ==> final(solver).holds(Cell::Volatile, Place::Register(inst.id)),
    {
        match &inst.data {
            InstructionType::Arg(_) => solver.includes(Cell::Volatile, Place::Register(inst.id)),
            InstructionType::Alloca(_) | InstructionType::Allocg(_) => solver.includes(Cell::Alloc(inst.id), Place::Register(inst.id)),
            InstructionType::Mov(Reg(reg)) => {
                solver.add_edge(Place::Register(*reg), Place::Register(inst.id));
                proof {
                    assert forall|s: Cell, p: Place| #[trigger] solver.holds(s, p) implies old(solver).placed_somewhere(s) by {
                        if !old(solver).holds(s, p) {
                            assert(old(solver).holds(s, Place::Register(*reg)));
                        }
                    }
                }
            },
            InstructionType::Gep(_, RegRegImm(start, _, _)) => {
                solver.add_edge(Place::Register(*start), Place::Register(inst.id));
                proof {
                    assert forall|s: Cell, p: Place| #[trigger] solver.holds(s, p) implies old(solver).placed_somewhere(s) by {
                        if !old(solver).holds(s, p) {
                            assert(old(solver).holds(s, Place::Register(*start)));
                        }
                    }
                }
            },
            InstructionType::Ld(Reg(addr)) => {
                solver.add_edge(Place::Memory(*addr), Place::Register(inst.id));
                proof {
                    assert forall|s: Cell, p: Place| #[trigger] solver.holds(s, p) implies old(solver).placed_somewhere(s) by {
                        if !old(solver).holds(s, p) {
                            assert(old(solver).holds(s, Place::Memory(*addr)));
                        }
                    }
                }
                let memory = self.get_memory();
                let ghost s1 = *solver;
                let mut k: usize = 0;
                while k < memory.len()
                    invariant
                        0 <= k <= memory@.len(),
                        solver.wf(),
                        solver.pending_held(),
                        forall|s: Cell, p: Place| s1.holds(s, p) ==> solver.holds(s, p),
                        forall|s: Cell, p: Place| #[trigger] solver.holds(s, p) ==> old(solver).placed_somewhere(s),
                    decreases memory@.len() - k,
                {
                    let ghost prev = *solver;
                    solver.includes_implies(Cell::Alloc(memory[k]), Place::Memory(*addr), Place::Memory(memory[k]), Place::Register(inst.id));
                    proof {
                        assert forall|s: Cell, p: Place| #[trigger] solver.holds(s, p) implies old(solver).placed_somewhere(s) by {
                            assert(prev.placed_somewhere(s));
                            let q = choose|q: Place| #[trigger] prev.holds(s, q);
                        }
                    }
                    k += 1;
                }
            },
            InstructionType::St(RegReg(addr, reg)) => {
                solver.add_edge(Place::Register(*reg), Place::Memory(*addr));
                proof {
                    assert forall|s: Cell, p: Place| #[trigger] solver.holds(s, p) implies old(solver).placed_somewhere(s) by {
                        if !old(solver).holds(s, p) {
                            assert(old(solver).holds(s, Place::Register(*reg)));
                        }
                    }
                }
                let memory = self.get_memory();
                let ghost s1 = *solver;
                let mut k: usize = 0;
                while k < memory.len()
                    invariant
                        0 <= k <= memory@.len(),
                        solver.wf(),
                        solver.pending_held(),
                        forall|s: Cell, p: Place| s1.holds(s, p) ==> solver.holds(s, p),
                        forall|s: Cell, p: Place| #[trigger] solver.holds(s, p) ==> old(solver).placed_somewhere(s),
                    decreases memory@.len() - k,
                {
                    let ghost prev = *solver;
                    solver.includes_implies(Cell::Alloc(memory[k]), Place::Memory(*addr), Place::Register(*reg), Place::Memory(memory[k]));
                    proof {
                        assert forall|s: Cell, p: Place| #[trigger] solver.holds(s, p) implies old(solver).placed_somewhere(s) by {
                            assert(prev.placed_somewhere(s));
                            let q = choose|q: Place| #[trigger] prev.holds(s, q);
                        }
                    }
                    k += 1;
                }
            },
            _ => {
                proof {
                    assert forall|s: Cell, p: Place| #[trigger] solver.holds(s, p) implies old(solver).placed_somewhere(s) by {
                        assert(old(solver).holds(s, p));
                    }
                }
            },
        }
    }

    /// For each register met, the allocations its value may point into.
    #[verifier::rlimit(30)]
    pub fn analyze(&mut self) -> (r: Vec<(Register, Vec<Cell>)>)
        requires
            old(self).memory_ok(),
        ensures
            forall|b: int, i: int| 0 <= b < old(self).function.blocks@.len() && 0 <= i < old(self).function.blocks@[b].instruction@.len()
                && (#[trigger] old(self).function.blocks@[b].instruction@[i]).data is Alloca ==> exists|k: int| 0 <= k < r@.len()
                && r@[k].0 == old(self).function.blocks@[b].instruction@[i].id
                && r@[k].1@.contains(Cell::Alloc(old(self).function.blocks@[b].instruction@[i].id)),
            forall|b: int, i: int| 0 <= b < old(self).function.blocks@.len() && 0 <= i < old(self).function.blocks@[b].instruction@.len()
                && (#[trigger] old(self).function.blocks@[b].instruction@[i]).data is Arg ==> exists|k: int| 0 <= k < r@.len()
                && r@[k].0 == old(self).function.blocks@[b].instruction@[i].id
                && r@[k].1@.contains(Cell::Volatile),
            forall|k: int, c: Cell| 0 <= k < r@.len() && #[trigger] r@[k].1@.contains(c) ==> allocation_cell(*old(self).function, c),
            distinct_keys(r@),
    {
        let mut solver = CubicSolver::new();
        let f = self.function;
        let mut b: usize = 0;
        while b < f.blocks.len()
            invariant
                0 <= b <= f.blocks@.len(),
                self.function == f,
                solver.wf(),
                solver.pending_held(),
                forall|s: Cell, p: Place| #[trigger] solver.holds(s, p) ==> allocation_cell(*f, s),
                self.memory matches Some(m) ==> forall|a: Register| m@.contains(a) <==> memory_address(*f, a),
                forall|bb: int, i: int| 0 <= bb < b && 0 <= i < f.blocks@[bb].instruction@.len()
                    && (#[trigger] f.blocks@[bb].instruction@[i]).data is Alloca ==> solver.holds(
                    Cell::Alloc(f.blocks@[bb].instruction@[i].id), Place::Register(f.blocks@[bb].instruction@[i].id)),
                forall|bb: int, i: int| 0 <= bb < b && 0 <= i < f.blocks@[bb].instruction@.len()
                    && (#[trigger] f.blocks@[bb].instruction@[i]).data is Arg ==> solver.holds(
                    Cell::Volatile, Place::Register(f.blocks@[bb].instruction@[i].id)),
            decreases f.blocks@.len() - b,
        {
            let mut i: usize = 0;
            while i < f.blocks[b].instruction.len()
                invariant
                    0 <= i <= f.blocks@[b as int].instruction@.len(),
                    b < f.blocks@.len(),
                    self.function == f,
                    solver.wf(),
                    solver.pending_held(),
                    forall|s: Cell, p: Place| #[trigger] solver.holds(s, p) ==> allocation_cell(*f, s),
                    self.memory matches Some(m) ==> forall|a: Register| m@.contains(a) <==> memory_address(*f, a),
                    forall|bb: int, k: int| 0 <= bb < b && 0 <= k < f.blocks@[bb].instruction@.len()
                        && (#[trigger] f.blocks@[bb].instruction@[k]).data is Arg ==> solver.holds(
                        Cell::Volatile, Place::Register(f.blocks@[bb].instruction@[k].id)),
                    forall|k: int| 0 <= k < i && (#[trigger] f.blocks@[b as int].instruction@[k]).data is Arg ==> solver.holds(
                        Cell::Volatile, Place::Register(f.blocks@[b as int].instruction@[k].id)),
                    forall|bb: int, k: int| 0 <= bb < b && 0 <= k < f.blocks@[bb].instruction@.len()
                        && (#[trigger] f.blocks@[bb].instruction@[k]).data is Alloca ==> solver.holds(
                        Cell::Alloc(f.blocks@[bb].instruction@[k].id), Place::Register(f.blocks@[bb].instruction@[k].id)),
                    forall|k: int| 0 <= k < i && (#[trigger] f.blocks@[b as int].instruction@[k]).data is Alloca ==> solver.holds(
                        Cell::Alloc(f.blocks@[b as int].instruction@[k].id), Place::Register(f.blocks@[b as int].instruction@[k].id)),
                decreases f.blocks@[b as int].instruction@.len() - i,
            {
                let ghost prev = solver;
                self.analyze_inst(&f.blocks[b].instruction[i], &mut solver);
                proof {
                    let ins = f.blocks@[b as int].instruction@[i as int];
                    assert forall|s: Cell, p: Place| #[trigger] solver.holds(s, p) implies allocation_cell(*f, s) by {
                        if prev.placed_somewhere(s) {
                            let q = choose|q: Place| #[trigger] prev.holds(s, q);
                        } else if (ins.data is Alloca || ins.data is Allocg) && s == Cell::Alloc(ins.id) {
                            assert(f.blocks@[b as int].instruction@[i as int] == ins);
                        }
                    }
                }
                i += 1;
            }
            b += 1;
        }
        let ghost fin = solver;
        let sol = solver.solution();
        let mut out: Vec<(Register, Vec<Cell>)> = Vec::new();
        let mut j: usize = 0;
        while j < sol.len()
            invariant
                0 <= j <= sol@.len(),
                fin.wf(),
                sol@.len() == fin.places@.len(),
                forall|k: int| 0 <= k < sol@.len() ==> (#[trigger] sol@[k]).0 == fin.places@[k] && sol@[k].1@ == fin.solution@[k]@,
                forall|k: int| 0 <= k < j && (#[trigger] fin.places@[k]) is Register ==> exists|m: int| 0 <= m < out@.len()
                    && out@[m].0 == fin.places@[k]->Register_0 && out@[m].1@ == fin.solution@[k]@,
                distinct_keys(out@),
                forall|m: int| 0 <= m < out@.len() ==> exists|k: int| 0 <= k < j && fin.places@[k] == Place::Register(
                    (#[trigger] out@[m]).0) && out@[m].1@ == fin.solution@[k]@,
            decreases sol@.len() - j,
        {
            match sol[j].0 {
                Place::Register(reg) => {
                    let ghost before = out@;
                    let mut cells: Vec<Cell> = Vec::new();
                    let mut c: usize = 0;
                    while c < sol[j].1.len()
                        invariant
                            0 <= c <= sol@[j as int].1@.len(),
                            j < sol@.len(),
                            cells@ == sol@[j as int].1@.take(c as int),
                        decreases sol@[j as int].1@.len() - c,
                    {
                        cells.push(sol[j].1[c]);
                        c += 1;
                    }
                    assert(cells@ =~= sol@[j as int].1@);
                    out.push((reg, cells));
                    proof {
                        assert forall|a: int, b2: int| 0 <= a < b2 < out@.len() implies (#[trigger] out@[a]).0 != (#[trigger] out@[b2]).0 by {
                            if b2 < before.len() {
                                assert(out@[a] == before[a] && out@[b2] == before[b2]);
                            } else {
                                assert(out@[a] == before[a]);
                                let k = choose|k: int| 0 <= k < j && fin.places@[k] == Place::Register((#[trigger] before[a]).0)
                                    && before[a].1@ == fin.solution@[k]@;
                                assert(fin.places@[j as int] == Place::Register(reg));
                                assert(fin.places@.no_duplicates());
                            }
                        }
                        assert forall|m: int| 0 <= m < out@.len() implies exists|k: int| 0 <= k < j + 1 && fin.places@[k] == Place::Register(
                            (#[trigger] out@[m]).0) && out@[m].1@ == fin.solution@[k]@ by {
                            if m < before.len() {
                                assert(out@[m] == before[m]);
                                let k = choose|k: int| 0 <= k < j && fin.places@[k] == Place::Register((#[trigger] before[m]).0)
                                    && before[m].1@ == fin.solution@[k]@;
                                assert(fin.places@[k] == Place::Register(out@[m].0));
                            } else {
                                assert(fin.places@[j as int] == Place::Register(out@[m].0));
                            }
                        }
                        assert forall|k: int| 0 <= k < j + 1 && (#[trigger] fin.places@[k]) is Register implies exists|m: int| 0 <= m < out@.len()
                            && out@[m].0 == fin.places@[k]->Register_0 && out@[m].1@ == fin.solution@[k]@ by {
                            if k == j {
                                assert(out@[out@.len() - 1].0 == fin.places@[k]->Register_0);
                            } else {
                                let m = choose|m: int| 0 <= m < before.len()
                                    && before[m].0 == fin.places@[k]->Register_0 && before[m].1@ == fin.solution@[k]@;
                                assert(out@[m] == before[m]);
                            }
                        }
                    }
                },
                Place::Memory(_) => {},
            }
            j += 1;
        }
        proof {
            assert forall|bb: int, i: int| 0 <= bb < f.blocks@.len() && 0 <= i < f.blocks@[bb].instruction@.len()
                && (#[trigger] f.blocks@[bb].instruction@[i]).data is Alloca implies exists|k: int| 0 <= k < out@.len()
                && out@[k].0 == f.blocks@[bb].instruction@[i].id
                && out@[k].1@.contains(Cell::Alloc(f.blocks@[bb].instruction@[i].id)) by {
                let id = f.blocks@[bb].instruction@[i].id;
                assert(fin.holds(Cell::Alloc(id), Place::Register(id)));
                let jj = choose|jj: int| 0 <= jj < fin.places@.len() && fin.places@[jj] == Place::Register(id)
                    && (#[trigger] fin.solution@[jj])@.contains(Cell::Alloc(id));
                assert(fin.places@[jj] is Register);
                let m = choose|m: int| 0 <= m < out@.len() && out@[m].0 == fin.places@[jj]->Register_0 && out@[m].1@ == fin.solution@[jj]@;
                assert(out@[m].1@.contains(Cell::Alloc(id)));
            }
            assert forall|bb: int, i: int| 0 <= bb < f.blocks@.len() && 0 <= i < f.blocks@[bb].instruction@.len()
                && (#[trigger] f.blocks@[bb].instruction@[i]).data is Arg implies exists|k: int| 0 <= k < out@.len()
                && out@[k].0 == f.blocks@[bb].instruction@[i].id
                && out@[k].1@.contains(Cell::Volatile) by {
                let id = f.blocks@[bb].instruction@[i].id;
                assert(fin.holds(Cell::Volatile, Place::Register(id)));
                let jj = choose|jj: int| 0 <= jj < fin.places@.len() && fin.places@[jj] == Place::Register(id)
                    && (#[trigger] fin.solution@[jj])@.contains(Cell::Volatile);
                assert(fin.places@[jj] is Register);
                let m = choose|m: int| 0 <= m < out@.len() && out@[m].0 == fin.places@[jj]->Register_0 && out@[m].1@ == fin.solution@[jj]@;
                assert(out@[m].1@.contains(Cell::Volatile));
            }
            assert forall|m: int, c: Cell| 0 <= m < out@.len() && #[trigger] out@[m].1@.contains(c) implies allocation_cell(*f, c) by {
                let k = choose|k: int| 0 <= k < sol@.len() && fin.places@[k] == Place::Register(
                    (#[trigger] out@[m]).0) && out@[m].1@ == fin.solution@[k]@;
                assert(fin.solution@[k]@.contains(c));
                assert(fin.holds(c, fin.places@[k]));
            }
        }
        out
    }
}

} // verus!
