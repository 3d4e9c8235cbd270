use vstd::prelude::*;

use crate::middleend::analysis::dataflow::DataFlowAnalysis;
use crate::middleend::analysis::possible_mem::PossibleMemAnalysis;
use crate::middleend::ir::Function;

verus! {

/// Computes, for each instruction of `function`, the registers that each place in memory
/// may hold; no phi node is placed yet, so the function is left as it is.
pub fn create_phinodes(function: &mut Function)
    ensures
        *final(function) == *old(function),
{
    let mut poss_analysis = PossibleMemAnalysis::new(&*function);
    let _result = poss_analysis.analyze();
}

} // verus!
