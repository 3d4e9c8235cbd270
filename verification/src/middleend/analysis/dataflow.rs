use vstd::prelude::*;

use crate::middleend::analysis::lattice::{shaped, FunctionLattice, Lattice};
use crate::middleend::ir::{successors_of, Function, Instruction};

verus! {

/// Direction in which an analysis propagates facts.
#[derive(Clone, Copy, PartialEq, Eq, Debug, Structural)]
pub enum DataflowType {
    Forwards,
    Backwards,
}

/// A position in a function: whether it is global code, the block and the instruction.
pub type InstPos = (bool, usize, usize);

/// `x`, or the greatest `usize` when `x` does not fit.
pub open spec fn capped(x: int) -> int {
    if x <= usize::MAX {
        x
    } else {
        usize::MAX as int
    }
}

/// The product of two counts, or the greatest `usize` when it does not fit.
pub fn saturating_product(a: usize, b: usize) -> (r: usize)
    ensures
        r == if a * b <= usize::MAX { a * b } else { usize::MAX as int },
{
    if b != 0 && a > usize::MAX / b {
        proof {
            assert(a * b > usize::MAX) by (nonlinear_arith)
                requires
                    b > 0,
                    a > usize::MAX / b,
            ;
        }
        usize::MAX
    } else {
        proof {
            if b != 0 {
                assert(a * b <= usize::MAX) by (nonlinear_arith)
                    requires
                        b > 0,
                        a <= usize::MAX / b,
                ;
            }
        }
        a * b
    }
}

/// Whether `r` is what joining the facts `vals` in order into the least element gives.
pub open spec fn lub_chain<A, L: Lattice<A>>(l: L, vals: Seq<A>, r: A) -> bool
    decreases vals.len(),
{
    if vals.len() == 0 {
        l.is_bot(r)
    } else {
        exists|acc: A| lub_chain(l, vals.drop_last(), acc) && #[trigger] l.is_lub(acc, vals.last(), r)
    }
}

/// The facts of `state` at the positions `ps`, in order.
pub open spec fn facts_at<A>(state: Seq<Vec<A>>, ps: Seq<InstPos>) -> Seq<A> {
    Seq::new(ps.len(), |i: int| state[ps[i].1 as int]@[ps[i].2 as int])
}

/// Whether `p` names an instruction of `f`.
pub open spec fn valid_pos(f: Function, p: InstPos) -> bool {
    p.1 < f.blocks@.len() && p.2 < f.blocks@[p.1 as int].instruction@.len()
}


/// The positions of the blocks `xs` of `f` that have instructions, in order: their first
/// instructions, or their last ones when `last` holds.
pub open spec fn block_positions(f: Function, xs: Seq<usize>, last: bool) -> Seq<InstPos>
    decreases xs.len(),
{
    if xs.len() == 0 {
        Seq::empty()
    } else {
        let x = xs.last();
        let rest = block_positions(f, xs.drop_last(), last);
        if x < f.blocks@.len() && f.blocks@[x as int].instruction@.len() > 0 {
            rest.push(
                (false, x, if last { (f.blocks@[x as int].instruction@.len() - 1) as usize } else { 0usize }),
            )
        } else {
            rest
        }
    }
}

/// The positions whose facts flow into the instruction at `p`: going backwards, the next
/// instruction, or the first instructions of the successors after the last one; going
/// forwards, the previous instruction, or the last instructions of the predecessors
/// before the first one.
pub open spec fn before_positions(f: Function, dir: DataflowType, p: InstPos) -> Seq<InstPos> {
    let blk = f.blocks@[p.1 as int];
    match dir {
        DataflowType::Backwards => if p.2 == blk.instruction@.len() - 1 {
            block_positions(f, successors_of(blk.instruction@.last().data), false)
        } else {
            seq![(p.0, p.1, (p.2 + 1) as usize)]
        },
        DataflowType::Forwards => if p.2 == 0 {
            block_positions(f, blk.predecesors@, true)
        } else {
            seq![(p.0, p.1, (p.2 - 1) as usize)]
        },
    }
}

/// Whether the transfer relation `tr` takes the fact `state` before the instruction
/// `inst` at `pos` to the fact `r` after it.
pub open spec fn steps<A>(tr: spec_fn(Instruction, InstPos, A, A) -> bool, inst: Instruction, pos: InstPos, state: A, r: A) -> bool {
    tr(inst, pos, state, r)
}

/// Whether `r` is the fact after the instruction at `pos` of `f` when the facts before
/// it are those of `s`: the transfer relation `tr` gives it from a join, in the lattice
/// `l`, of the facts of `s` at the positions before `pos` in the direction `dir`.
pub open spec fn transferred<A, L: Lattice<A>>(
    f: Function,
    l: L,
    dir: DataflowType,
    tr: spec_fn(Instruction, InstPos, A, A) -> bool,
    s: Seq<Vec<A>>,
    pos: InstPos,
    r: A,
) -> bool {
    exists|j: A| lub_chain(l, facts_at(s, before_positions(f, dir, pos)), j)
        && #[trigger] steps(tr, f.blocks@[pos.1 as int].instruction@[pos.2 as int], pos, j, r)
}

/// Whether `t` is one round from `s` in the function `f`: at each instruction, the fact
/// of `t` is the one transferred from the facts of `s`.
pub open spec fn round_of<A, L: Lattice<A>>(
    f: Function,
    l: L,
    dir: DataflowType,
    tr: spec_fn(Instruction, InstPos, A, A) -> bool,
    s: Seq<Vec<A>>,
    t: Seq<Vec<A>>,
) -> bool {
    &&& shaped(f, t)
    &&& forall|b: int, i: int| 0 <= b < t.len() && 0 <= i < t[b]@.len() ==> #[trigger] transferred(
        f,
        l,
        dir,
        tr,
        s,
        (false, b as usize, i as usize),
        t[b]@[i],
    )
}

/// Whether `s` is reached from the least state in `n` rounds.
pub open spec fn reached<A, L: Lattice<A>>(
    f: Function,
    l: L,
    dir: DataflowType,
    tr: spec_fn(Instruction, InstPos, A, A) -> bool,
    s: Seq<Vec<A>>,
    n: nat,
) -> bool
    decreases n,
{
    if n == 0 {
        &&& shaped(f, s)
        &&& forall|b: int, i: int| 0 <= b < s.len() && 0 <= i < s[b]@.len() ==> l.is_bot(#[trigger] s[b]@[i])
    } else {
        exists|p: Seq<Vec<A>>| reached(f, l, dir, tr, p, (n - 1) as nat) && #[trigger] round_of(f, l, dir, tr, p, s)
    }
}

/// One round from a state reached in `n` rounds is reached in `n + 1` rounds.
pub proof fn lemma_reached_next<A, L: Lattice<A>>(
    f: Function,
    l: L,
    dir: DataflowType,
    tr: spec_fn(Instruction, InstPos, A, A) -> bool,
    p: Seq<Vec<A>>,
    s: Seq<Vec<A>>,
    n: nat,
)
    requires
        reached(f, l, dir, tr, p, n),
        round_of(f, l, dir, tr, p, s),
    ensures
        reached(f, l, dir, tr, s, n + 1),
{
    let m: nat = n + 1;
    assert((m - 1) as nat == n);
    assert(reached(f, l, dir, tr, p, (m - 1) as nat) && round_of(f, l, dir, tr, p, s));
}

/// Whether `s` is reached in `n` rounds, the last of which changed no fact: a state
/// reached in one round fewer is the same as `s`, by `same`, instruction by instruction.
pub open spec fn settled<A, L: Lattice<A>>(
    f: Function,
    l: L,
    dir: DataflowType,
    tr: spec_fn(Instruction, InstPos, A, A) -> bool,
    same: spec_fn(A, A) -> bool,
    s: Seq<Vec<A>>,
    n: nat,
) -> bool {
    n > 0 && exists|p: Seq<Vec<A>>| reached(f, l, dir, tr, p, (n - 1) as nat) && #[trigger] round_of(f, l, dir, tr, p, s)
        && forall|b: int, i: int| 0 <= b < p.len() && 0 <= i < p[b]@.len() ==> same(#[trigger] p[b]@[i], s[b]@[i])
}

/// A dataflow analysis of one function over a lattice `L` of facts `A`: the state is one
/// fact for each instruction, and each round applies the transfer function of each
/// instruction to the join of the facts at the positions before it.
pub trait DataFlowAnalysis<'a, A, L: Lattice<A>>: Sized {
    spec fn spec_function(&self) -> Function;

    /// The lattice of facts.
    spec fn spec_lattice(&self) -> L;

    /// The lattice of facts.
    fn inner_lattice(&self) -> (r: &L)
        ensures
            *r == self.spec_lattice(),
    ;

    /// The function analysed.
    fn function(&self) -> (r: &Function)
        ensures
            *r == self.spec_function(),
    ;

    /// Makes `func` the function analysed.
    fn set_function(&mut self, func: &'a Function)
        ensures
            final(self).spec_function() == *func,
    ;

    /// The direction of the analysis.
    spec fn spec_direction(&self) -> DataflowType;

    /// The direction of the analysis.
    fn direction(&self) -> (r: DataflowType)
        ensures
            r == self.spec_direction(),
    ;

    /// The transfer relation: whether a fact is the one after an instruction at a
    /// position, given the fact before it.
    spec fn spec_transfer(&self) -> spec_fn(Instruction, InstPos, A, A) -> bool;

    /// The fact after the instruction `inst` at `pos`, given the fact before it.
    fn transfer_fun(&self, inst: &Instruction, pos: InstPos, state: A) -> (r: A)
        ensures
            (self.spec_transfer())(*inst, pos, state, r),
    ;

    /// Whether two facts are the same.
    spec fn spec_same(&self, a: A, b: A) -> bool;

    /// Whether two facts are the same.
    fn same(&self, a: &A, b: &A) -> (r: bool)
        ensures
            r == self.spec_same(*a, *b),
    ;

    /// How many rounds are enough to reach the fixpoint from the least state.
    spec fn spec_rounds(&self) -> int;

    /// How many rounds are enough to reach the fixpoint from the least state.
    fn rounds(&self) -> (r: usize)
        ensures
            r == self.spec_rounds(),
    ;

    /// The positions whose facts flow into `inst`: the next instruction, or the first
    /// instructions of the successors, going backwards; the previous instruction, or the
    /// last instructions of the predecessors, going forwards. Blocks outside the function
    /// and empty blocks have no position.
    fn before(&self, inst: InstPos) -> (r: Vec<InstPos>)
        requires
            valid_pos(self.spec_function(), inst),
        ensures
            forall|i: int| 0 <= i < r@.len() ==> valid_pos(self.spec_function(), #[trigger] r@[i]),
            r@ == before_positions(self.spec_function(), self.spec_direction(), inst),
    {
        let (g, bb, idx) = inst;
        let func = self.function();
        let mut out: Vec<InstPos> = Vec::new();
        match self.direction() {
            DataflowType::Backwards => {
                if idx == func.blocks[bb].instruction.len() - 1 {
                    let succ = func.blocks[bb].succ();
                    let mut i: usize = 0;
                    while i < succ.len()
                        invariant
                            0 <= i <= succ@.len(),
                            *func == self.spec_function(),
                            forall|k: int| 0 <= k < out@.len() ==> valid_pos(self.spec_function(), #[trigger] out@[k]),
                            out@ == block_positions(*func, succ@.take(i as int), false),
                        decreases succ@.len() - i,
                    {
                        let x = succ[i];
                        proof {
                            assert(succ@.take(i + 1).drop_last() =~= succ@.take(i as int));
                        }
                        if x < func.blocks.len() && func.blocks[x].instruction.len() > 0 {
                            out.push((false, x, 0));
                        }
                        i += 1;
                    }
                    proof {
                        assert(succ@.take(succ@.len() as int) =~= succ@);
                    }
                } else {
                    out.push((g, bb, idx + 1));
                }
            },
            DataflowType::Forwards => {
                if idx == 0 {
                    let pred = func.blocks[bb].pred();
                    let mut i: usize = 0;
                    while i < pred.len()
                        invariant
                            0 <= i <= pred@.len(),
                            *func == self.spec_function(),
                            forall|k: int| 0 <= k < out@.len() ==> valid_pos(self.spec_function(), #[trigger] out@[k]),
                            out@ == block_positions(*func, pred@.take(i as int), true),
                        decreases pred@.len() - i,
                    {
                        let x = pred[i];
                        proof {
                            assert(pred@.take(i + 1).drop_last() =~= pred@.take(i as int));
                        }
                        if x < func.blocks.len() && func.blocks[x].instruction.len() > 0 {
                            out.push((false, x, func.blocks[x].instruction.len() - 1));
                        }
                        i += 1;
                    }
                    proof {
                        assert(pred@.take(pred@.len() as int) =~= pred@);
                    }
                } else {
                    out.push((g, bb, idx - 1));
                }
            },
        }
        out
    }

    /// The join of the facts at the positions before `inst`.
    fn join(&self, inst: InstPos, state: &Vec<Vec<A>>) -> (r: A)
        requires
            valid_pos(self.spec_function(), inst),
            shaped(self.spec_function(), state@),
        ensures
            lub_chain(
                self.spec_lattice(),
                facts_at(state@, before_positions(self.spec_function(), self.spec_direction(), inst)),
                r,
            ),
    {
        let prev = self.before(inst);
        let ghost vals = facts_at(state@, prev@);
        let mut acc = self.inner_lattice().bot();
        proof {
            assert(vals.take(0).len() == 0);
        }
        let mut i: usize = 0;
        while i < prev.len()
            invariant
                0 <= i <= prev@.len(),
                shaped(self.spec_function(), state@),
                forall|k: int| 0 <= k < prev@.len() ==> valid_pos(self.spec_function(), #[trigger] prev@[k]),
                vals == facts_at(state@, prev@),
                lub_chain(self.spec_lattice(), vals.take(i as int), acc),
            decreases prev@.len() - i,
        {
            let (_, b, k) = prev[i];
            assert(valid_pos(self.spec_function(), prev@[i as int]));
            let ghost before_acc = acc;
            acc = self.inner_lattice().lub(&acc, &state[b][k]);
            proof {
                let next = vals.take(i + 1);
                assert(next.drop_last() =~= vals.take(i as int));
                assert(next.last() == state@[b as int]@[k as int]);
                assert(self.spec_lattice().is_lub(before_acc, next.last(), acc));
                assert(lub_chain(self.spec_lattice(), next, acc));
            }
            i += 1;
        }
        proof {
            assert(vals.take(prev@.len() as int) =~= vals);
        }
        acc
    }

    /// The new facts of one block.
    fn fun_block(&self, state: &Vec<Vec<A>>, block_idx: usize, global: bool) -> (r: Vec<A>)
        requires
            block_idx < self.spec_function().blocks@.len(),
            shaped(self.spec_function(), state@),
        ensures
            r@.len() == self.spec_function().blocks@[block_idx as int].instruction@.len(),
            forall|x: int| 0 <= x < r@.len() ==> #[trigger] transferred(
                self.spec_function(),
                self.spec_lattice(),
                self.spec_direction(),
                self.spec_transfer(),
                state@,
                (global, block_idx, x as usize),
                r@[x],
            ),
    {
        let func = self.function();
        let n = func.blocks[block_idx].instruction.len();
        let mut out: Vec<A> = Vec::new();
        let mut x: usize = 0;
        while x < n
            invariant
                0 <= x <= n,
                *func == self.spec_function(),
                block_idx < func.blocks@.len(),
                n == func.blocks@[block_idx as int].instruction@.len(),
                shaped(self.spec_function(), state@),
                out@.len() == x,
                forall|y: int| 0 <= y < out@.len() ==> #[trigger] transferred(
                    self.spec_function(),
                    self.spec_lattice(),
                    self.spec_direction(),
                    self.spec_transfer(),
                    state@,
                    (global, block_idx, y as usize),
                    out@[y],
                ),
            decreases n - x,
        {
            let pos: InstPos = (global, block_idx, x);
            let joined = self.join(pos, state);
            let fact = self.transfer_fun(&func.blocks[block_idx].instruction[x], pos, joined);
            proof {
                assert(steps(self.spec_transfer(), func.blocks@[block_idx as int].instruction@[x as int], pos, joined, fact));
                assert(transferred(
                    self.spec_function(),
                    self.spec_lattice(),
                    self.spec_direction(),
                    self.spec_transfer(),
                    state@,
                    pos,
                    fact,
                ));
            }
            let ghost before = out@;
            out.push(fact);
            proof {
                assert forall|y: int| 0 <= y < out@.len() implies #[trigger] transferred(
                    self.spec_function(),
                    self.spec_lattice(),
                    self.spec_direction(),
                    self.spec_transfer(),
                    state@,
                    (global, block_idx, y as usize),
                    out@[y],
                ) by {
                    if y < before.len() {
                        assert(out@[y] == before[y]);
                    } else {
                        assert((global, block_idx, y as usize) == pos);
                    }
                }
            }
            x += 1;
        }
        out
    }

    /// One round: the new facts of every block.
    fn fun(&self, state: &Vec<Vec<A>>) -> (r: Vec<Vec<A>>)
        requires
            shaped(self.spec_function(), state@),
        ensures
            round_of(
                self.spec_function(),
                self.spec_lattice(),
                self.spec_direction(),
                self.spec_transfer(),
                state@,
                r@,
            ),
    {
        let func = self.function();
        let mut out: Vec<Vec<A>> = Vec::new();
        let mut b: usize = 0;
        while b < func.blocks.len()
            invariant
                0 <= b <= func.blocks@.len(),
                *func == self.spec_function(),
                shaped(self.spec_function(), state@),
                out@.len() == b,
                forall|k: int| 0 <= k < b ==> (#[trigger] out@[k])@.len() == func.blocks@[k].instruction@.len(),
                forall|k: int, i: int| 0 <= k < b && 0 <= i < out@[k]@.len() ==> #[trigger] transferred(
                    self.spec_function(),
                    self.spec_lattice(),
                    self.spec_direction(),
                    self.spec_transfer(),
                    state@,
                    (false, k as usize, i as usize),
                    out@[k]@[i],
                ),
            decreases func.blocks@.len() - b,
        {
            let row = self.fun_block(state, b, false);
            let ghost before = out@;
            out.push(row);
            proof {
                assert forall|k: int, i: int| 0 <= k < b + 1 && 0 <= i < out@[k]@.len() implies #[trigger] transferred(
                    self.spec_function(),
                    self.spec_lattice(),
                    self.spec_direction(),
                    self.spec_transfer(),
                    state@,
                    (false, k as usize, i as usize),
                    out@[k]@[i],
                ) by {
                    if k < b {
                        assert(out@[k] == before[k]);
                    } else {
                        assert(out@[k] == row);
                        assert(k as usize == b);
                        assert(out@[k]@[i] == row@[i]);
                    }
                }
            }
            b += 1;
        }
        out
    }

    /// Whether two states hold the same fact at each instruction.
    fn same_state(&self, a: &Vec<Vec<A>>, b: &Vec<Vec<A>>) -> (r: bool)
        requires
            shaped(self.spec_function(), a@),
            shaped(self.spec_function(), b@),
        ensures
            r == forall|k: int, i: int| 0 <= k < a@.len() && 0 <= i < a@[k]@.len() ==> #[trigger] self.spec_same(
                a@[k]@[i],
                b@[k]@[i],
            ),
    {
        let mut k: usize = 0;
        while k < a.len()
            invariant
                0 <= k <= a@.len(),
                shaped(self.spec_function(), a@),
                shaped(self.spec_function(), b@),
                forall|kk: int, i: int| 0 <= kk < k && 0 <= i < a@[kk]@.len() ==> #[trigger] self.spec_same(a@[kk]@[i], b@[kk]@[i]),
            decreases a@.len() - k,
        {
            let mut i: usize = 0;
            while i < a[k].len()
                invariant
                    0 <= i <= a@[k as int]@.len(),
                    k < a@.len(),
                    shaped(self.spec_function(), a@),
                    shaped(self.spec_function(), b@),
                    forall|kk: int, j: int| 0 <= kk < k && 0 <= j < a@[kk]@.len() ==> #[trigger] self.spec_same(a@[kk]@[j], b@[kk]@[j]),
                    forall|j: int| 0 <= j < i ==> #[trigger] self.spec_same(a@[k as int]@[j], b@[k as int]@[j]),
                decreases a@[k as int]@.len() - i,
            {
                if !self.same(&a[k][i], &b[k][i]) {
                    return false;
                }
                i += 1;
            }
            k += 1;
        }
        true
    }

    /// Runs rounds from the least state until a round changes nothing, or the number of
    /// rounds that suffices is reached; gives back the last state.
    fn analyze(&mut self) -> (r: Vec<Vec<A>>)
        ensures
            shaped(old(self).spec_function(), r@),
            exists|n: nat| #[trigger] reached(
                old(self).spec_function(),
                old(self).spec_lattice(),
                old(self).spec_direction(),
                old(self).spec_transfer(),
                r@,
                n,
            ) && n <= old(self).spec_rounds() && (n == old(self).spec_rounds() || settled(
                old(self).spec_function(),
                old(self).spec_lattice(),
                old(self).spec_direction(),
                old(self).spec_transfer(),
                |a: A, b: A| old(self).spec_same(a, b),
                r@,
                n,
            )),
    {
        let bound = self.rounds();
        let func = self.function();
        let lat = FunctionLattice::new(func, self.inner_lattice());
        let mut x: Vec<Vec<A>> = lat.bot_state();
        let mut k: usize = 0;
        let mut done = false;
        let ghost f = self.spec_function();
        let ghost l = self.spec_lattice();
        let ghost dir = self.spec_direction();
        let ghost tr = self.spec_transfer();
        let ghost same = |a: A, b: A| self.spec_same(a, b);
        proof {
            assert(reached(f, l, dir, tr, x@, 0));
        }
        while k < bound && !done
            invariant
                *self == *old(self),
                f == self.spec_function(),
                l == self.spec_lattice(),
                dir == self.spec_direction(),
                tr == self.spec_transfer(),
                same == (|a: A, b: A| self.spec_same(a, b)),
                bound == self.spec_rounds(),
                k <= bound,
                shaped(self.spec_function(), x@),
                reached(f, l, dir, tr, x@, k as nat),
                done ==> settled(f, l, dir, tr, same, x@, k as nat),
            decreases bound - k,
        {
            let y = self.fun(&x);
            let same_now = self.same_state(&x, &y);
            proof {
                assert(round_of(f, l, dir, tr, x@, y@));
                assert(reached(f, l, dir, tr, x@, k as nat) && round_of(f, l, dir, tr, x@, y@));
                lemma_reached_next(f, l, dir, tr, x@, y@, k as nat);
                if same_now {
                    assert forall|b: int, i: int| 0 <= b < x@.len() && 0 <= i < x@[b]@.len() implies same(#[trigger] x@[b]@[i], y@[b]@[i]) by {
                        assert(self.spec_same(x@[b]@[i], y@[b]@[i]));
                    }
                    assert(settled(f, l, dir, tr, same, y@, (k + 1) as nat));
                }
            }
            x = y;
            done = same_now;
            k += 1;
        }
        x
    }
}

} // verus!
