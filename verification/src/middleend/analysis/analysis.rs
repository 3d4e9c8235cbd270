use vstd::prelude::*;

use crate::middleend::analysis::dataflow::{reached, settled, DataFlowAnalysis};
use crate::middleend::analysis::lattice::{shaped, Lattice};
use crate::middleend::ir::{Function, IrProgram};

verus! {

/// Whether `r` is what the analysis `d` gives: a state reached from the least one in at
/// most the rounds it allows, either all of them or until a round changed no fact.
pub open spec fn analysis_result<'a, A, L: Lattice<A>, D: DataFlowAnalysis<'a, A, L>>(d: D, r: Seq<Vec<A>>) -> bool {
    exists|n: nat| #[trigger] reached(d.spec_function(), d.spec_lattice(), d.spec_direction(), d.spec_transfer(), r, n)
        && n <= d.spec_rounds() && (n == d.spec_rounds() || settled(
        d.spec_function(),
        d.spec_lattice(),
        d.spec_direction(),
        d.spec_transfer(),
        |a: A, b: A| d.spec_same(a, b),
        r,
        n,
    ))
}

/// Whether `r` is what some analysis of type `D` of the function `f` gives.
pub open spec fn analysed_by<'a, A, L: Lattice<A>, D: DataFlowAnalysis<'a, A, L>>(f: Function, r: Seq<Vec<A>>) -> bool {
    exists|d: D| d.spec_function() == f && #[trigger] analysis_result(d, r)
}

/// Runs an analysis on each function of a program, in order: for each, its name and the
/// facts the analysis gives, one per instruction.
pub fn analyze_program<'a, A, L: Lattice<A>, D: DataFlowAnalysis<'a, A, L>>(
    program: &'a IrProgram,
    dataflowanalysis: D,
) -> (r: Vec<(String, Vec<Vec<A>>)>)
    ensures
        r@.len() == program.funcs@.len(),
        forall|k: int| 0 <= k < r@.len() ==> (#[trigger] r@[k]).0@ == program.funcs@[k].name@ && shaped(
            program.funcs@[k],
            r@[k].1@,
        ),
        forall|k: int| 0 <= k < r@.len() ==> #[trigger] analysed_by::<'a, A, L, D>(program.funcs@[k], r@[k].1@),
{
    let mut analysis = dataflowanalysis;
    let mut out: Vec<(String, Vec<Vec<A>>)> = Vec::new();
    let mut k: usize = 0;
    while k < program.funcs.len()
        invariant
            0 <= k <= program.funcs@.len(),
            out@.len() == k,
            forall|m: int| 0 <= m < k ==> (#[trigger] out@[m]).0@ == program.funcs@[m].name@ && shaped(
                program.funcs@[m],
                out@[m].1@,
            ),
            forall|m: int| 0 <= m < k ==> #[trigger] analysed_by::<'a, A, L, D>(program.funcs@[m], out@[m].1@),
        decreases program.funcs@.len() - k,
    {
        analysis.set_function(&program.funcs[k]);
        let ghost d0 = analysis;
        let facts = analysis.analyze();
        proof {
            assert(analysis_result(d0, facts@));
        }
        let ghost before = out@;
        out.push((program.funcs[k].name.clone(), facts));
        proof {
            assert forall|m: int| 0 <= m < k + 1 implies #[trigger] analysed_by::<'a, A, L, D>(program.funcs@[m], out@[m].1@) by {
                if m < k {
                    assert(out@[m] == before[m]);
                } else {
                    assert(out@[m].1@ == facts@);
                    assert(d0.spec_function() == program.funcs@[m]);
                }
            }
        }
        k += 1;
    }
    out
}

} // verus!
