use vstd::prelude::*;

use crate::middleend::analysis::anderson::AndersenAnalysis;
use crate::middleend::analysis::const_mem::{get_stores, ConstantMemoryAnalysis};
use crate::middleend::analysis::cubicsolver::Cell;
use crate::middleend::analysis::dataflow::DataFlowAnalysis;
use crate::middleend::analysis::lattice::{contains_reg, shaped, FlatElem, MemoryPlace};
use crate::middleend::inst::{renamed, ImmIRegs, InstructionType, Reg, RegReg, SymRegs};
use crate::middleend::ir::{blocks_used_regs, distinct_keys, BasicBlock, Function, InstUUID, Instruction, RegType, Register};

verus! {

/// Number of instructions in a sequence of blocks.
pub open spec fn insts_total(blocks: Seq<BasicBlock>) -> int
    decreases blocks.len(),
{
    if blocks.len() == 0 {
        0
    } else {
        insts_total(blocks.drop_last()) + blocks.last().instruction@.len()
    }
}

/// Number of copies in a sequence of instructions.
pub open spec fn movs_in(insts: Seq<Instruction>) -> int
    decreases insts.len(),
{
    if insts.len() == 0 {
        0
    } else {
        movs_in(insts.drop_last()) + if insts.last().data is Mov { 1int } else { 0int }
    }
}

/// Number of copies in a sequence of blocks.
pub open spec fn movs_total(blocks: Seq<BasicBlock>) -> int
    decreases blocks.len(),
{
    if blocks.len() == 0 {
        0
    } else {
        movs_total(blocks.drop_last()) + movs_in(blocks.last().instruction@)
    }
}

proof fn lemma_totals_update(blocks: Seq<BasicBlock>, j: int, nb: BasicBlock)
    requires
        0 <= j < blocks.len(),
    ensures
        insts_total(blocks.update(j, nb)) == insts_total(blocks) - blocks[j].instruction@.len() + nb.instruction@.len(),
        movs_total(blocks.update(j, nb)) == movs_total(blocks) - movs_in(blocks[j].instruction@) + movs_in(nb.instruction@),
    decreases blocks.len(),
{
    if j < blocks.len() - 1 {
        assert(blocks.update(j, nb).drop_last() =~= blocks.drop_last().update(j, nb));
        lemma_totals_update(blocks.drop_last(), j, nb);
    } else {
        assert(blocks.update(j, nb).drop_last() =~= blocks.drop_last());
    }
}

proof fn lemma_movs_bounds(insts: Seq<Instruction>)
    ensures
        0 <= movs_in(insts) <= insts.len(),
    decreases insts.len(),
{
    if insts.len() > 0 {
        lemma_movs_bounds(insts.drop_last());
    }
}

pub proof fn lemma_movs_total_nonneg(blocks: Seq<BasicBlock>)
    ensures
        0 <= movs_total(blocks),
        0 <= insts_total(blocks),
    decreases blocks.len(),
{
    if blocks.len() > 0 {
        lemma_movs_total_nonneg(blocks.drop_last());
        lemma_movs_bounds(blocks.last().instruction@);
    }
}

proof fn lemma_push_counts(s: Seq<Instruction>, x: Instruction)
    ensures
        movs_in(s.push(x)) == movs_in(s) + if x.data is Mov { 1int } else { 0int },
{
    assert(s.push(x).drop_last() =~= s);
}


/// Whether the instruction defines no register and is neither a store, a load nor a
/// copy: a terminator, a print and the like, which the passes keep.
pub open spec fn effectful(i: Instruction) -> bool {
    i.reg_type == RegType::Void && !(i.data is St || i.data is Ld || i.data is Mov)
}

/// The ids, in order, of the effectful instructions of `insts`.
pub open spec fn effect_ids(insts: Seq<Instruction>) -> Seq<InstUUID>
    decreases insts.len(),
{
    if insts.len() == 0 {
        Seq::empty()
    } else if effectful(insts.last()) {
        effect_ids(insts.drop_last()).push(insts.last().id)
    } else {
        effect_ids(insts.drop_last())
    }
}

/// Whether each block of `a` has the effectful instructions of the same block of `b`.
pub open spec fn effects_kept(a: Seq<BasicBlock>, b: Seq<BasicBlock>) -> bool {
    &&& a.len() == b.len()
    &&& forall|k: int| 0 <= k < a.len() ==> effect_ids(#[trigger] a[k].instruction@) == effect_ids(b[k].instruction@)
}

proof fn lemma_effect_push(s: Seq<Instruction>, x: Instruction)
    ensures
        effect_ids(s.push(x)) == if effectful(x) { effect_ids(s).push(x.id) } else { effect_ids(s) },
{
    assert(s.push(x).drop_last() =~= s);
}

proof fn lemma_effect_update(s: Seq<Instruction>, i: int, x: Instruction)
    requires
        0 <= i < s.len(),
        x.id == s[i].id,
        effectful(x) == effectful(s[i]),
    ensures
        effect_ids(s.update(i, x)) == effect_ids(s),
    decreases s.len(),
{
    if i < s.len() - 1 {
        assert(s.update(i, x).drop_last() =~= s.drop_last().update(i, x));
        lemma_effect_update(s.drop_last(), i, x);
    } else {
        assert(s.update(i, x).drop_last() =~= s.drop_last());
    }
}

proof fn lemma_effect_masked(o: Seq<Instruction>, keep: Seq<bool>)
    requires
        keep.len() == o.len(),
        forall|i: int| 0 <= i < o.len() && !keep[i] ==> o[i].data is St,
    ensures
        effect_ids(masked(o, keep)) == effect_ids(o),
    decreases o.len(),
{
    if o.len() > 0 {
        lemma_effect_masked(o.drop_last(), keep.drop_last());
        if keep.last() {
            lemma_effect_push(masked(o.drop_last(), keep.drop_last()), o.last());
        } else {
            assert(o[o.len() - 1].data is St);
        }
    }
}

proof fn lemma_effect_used_kept(insts: Seq<Instruction>, used: Seq<Register>)
    ensures
        effect_ids(used_kept(insts, used)) == effect_ids(insts),
    decreases insts.len(),
{
    if insts.len() > 0 {
        lemma_effect_used_kept(insts.drop_last(), used);
        if !(!used.contains(insts.last().id) && insts.last().reg_type != RegType::Void) {
            lemma_effect_push(used_kept(insts.drop_last(), used), insts.last());
        }
    }
}

/// The first recorded allocations of `reg` in a points-to result; none when it has no
/// entry.
pub open spec fn cells_of(result: Seq<(Register, Vec<Cell>)>, reg: Register) -> Seq<Cell>
    decreases result.len(),
{
    if result.len() == 0 {
        Seq::empty()
    } else if result[0].0 == reg {
        result[0].1@
    } else {
        cells_of(result.drop_first(), reg)
    }
}

proof fn lemma_cells_of_found(result: Seq<(Register, Vec<Cell>)>, reg: Register, k: int)
    requires
        0 <= k <= result.len(),
        forall|j: int| 0 <= j < k ==> (#[trigger] result[j]).0 != reg,
    ensures
        k < result.len() && result[k].0 == reg ==> cells_of(result, reg) == result[k].1@,
        k == result.len() ==> cells_of(result, reg) == Seq::<Cell>::empty(),
    decreases k,
{
    if k > 0 {
        lemma_cells_of_found(result.drop_first(), reg, k - 1);
    }
}

proof fn lemma_renamed_update(rs: Seq<(Register, Register)>, k: int, e: (Register, Register), x: Register)
    requires
        0 <= k < rs.len(),
        rs[k].0 == e.0,
        forall|j: int| 0 <= j < k ==> (#[trigger] rs[j]).0 != e.0,
    ensures
        renamed(rs.update(k, e), x) == if x == e.0 { e.1 } else { renamed(rs, x) },
    decreases k,
{
    assert(rs.update(k, e)[0] == if k == 0 { e } else { rs[0] });
    if k > 0 {
        if rs[0].0 != x {
            assert(rs.update(k, e).drop_first() =~= rs.drop_first().update(k - 1, e));
            lemma_renamed_update(rs.drop_first(), k - 1, e, x);
        }
    } else {
        assert(rs.update(k, e).drop_first() =~= rs.drop_first());
    }
}

proof fn lemma_renamed_push(rs: Seq<(Register, Register)>, e: (Register, Register), x: Register)
    requires
        forall|j: int| 0 <= j < rs.len() ==> (#[trigger] rs[j]).0 != e.0,
    ensures
        renamed(rs.push(e), x) == if x == e.0 { e.1 } else { renamed(rs, x) },
    decreases rs.len(),
{
    if rs.len() > 0 {
        assert(rs.push(e)[0] == rs[0]);
        if rs[0].0 != x {
            assert(rs.push(e).drop_first() =~= rs.drop_first().push(e));
            lemma_renamed_push(rs.drop_first(), e, x);
        }
    } else {
        assert(rs.push(e)[0] == e);
        assert(rs.push(e).drop_first() =~= rs);
    }
}

/// The instructions of `insts` that stay: those that define a register read in `used`,
/// and those that define nothing.
pub open spec fn used_kept(insts: Seq<Instruction>, used: Seq<Register>) -> Seq<Instruction>
    decreases insts.len(),
{
    if insts.len() == 0 {
        Seq::empty()
    } else if !used.contains(insts.last().id) && insts.last().reg_type != RegType::Void {
        used_kept(insts.drop_last(), used)
    } else {
        used_kept(insts.drop_last(), used).push(insts.last())
    }
}


/// The instructions of `o` whose entry in `keep` holds, in order.
pub open spec fn masked(o: Seq<Instruction>, keep: Seq<bool>) -> Seq<Instruction>
    decreases o.len(),
{
    if o.len() == 0 {
        Seq::empty()
    } else if keep.last() {
        masked(o.drop_last(), keep.drop_last()).push(o.last())
    } else {
        masked(o.drop_last(), keep.drop_last())
    }
}

/// Whether `n` is `o` with some of its stores left out, and nothing else.
pub open spec fn only_stores_dropped(o: Seq<Instruction>, n: Seq<Instruction>) -> bool {
    exists|keep: Seq<bool>| #![trigger masked(o, keep)]
        keep.len() == o.len() && (forall|i: int| 0 <= i < o.len() && !keep[i] ==> o[i].data is St) && n == masked(o, keep)
}

/// Two functions with the same name, number of arguments and return type.
pub open spec fn same_header(a: Function, b: Function) -> bool {
    a.name == b.name && a.arg_count == b.arg_count && a.ret_type == b.ret_type
}

/// Takes block `b` out of `f`, leaving an empty block in its place.
fn take_block(f: &mut Function, b: usize) -> (r: BasicBlock)
    requires
        b < old(f).blocks@.len(),
    ensures
        r == old(f).blocks@[b as int],
        final(f).blocks@ == old(f).blocks@.update(b as int, final(f).blocks@[b as int]),
        final(f).blocks@[b as int].instruction@.len() == 0,
        final(f).name == old(f).name,
        final(f).arg_count == old(f).arg_count,
        final(f).ret_type == old(f).ret_type,
{
    let mut blk = BasicBlock::default();
    let mut blocks: Vec<BasicBlock> = Vec::new();
    std::mem::swap(&mut blocks, &mut f.blocks);
    let mut out = blocks.remove(b);
    blocks.insert(b, blk);
    std::mem::swap(&mut blocks, &mut f.blocks);
    proof {
        assert(f.blocks@ =~= old(f).blocks@.update(b as int, f.blocks@[b as int]));
    }
    out
}

/// Puts the block `blk` at `b` in `f`.
fn put_block(f: &mut Function, b: usize, blk: BasicBlock)
    requires
        b < old(f).blocks@.len(),
    ensures
        final(f).blocks@ == old(f).blocks@.update(b as int, blk),
        final(f).name == old(f).name,
        final(f).arg_count == old(f).arg_count,
        final(f).ret_type == old(f).ret_type,
{
    f.blocks.set(b, blk);
}

/// Removes the instructions that define a register nobody reads, unless they define
/// nothing; tells whether it removed any.
pub fn remove_unused_instruction(function: &mut Function) -> (r: bool)
    ensures
        final(function).blocks@.len() == old(function).blocks@.len(),
        same_header(*final(function), *old(function)),
        insts_total(final(function).blocks@) <= insts_total(old(function).blocks@),
        r == (insts_total(final(function).blocks@) < insts_total(old(function).blocks@)),
        movs_total(final(function).blocks@) <= movs_total(old(function).blocks@),
        forall|k: int| 0 <= k < old(function).blocks@.len() ==> (#[trigger] final(function).blocks@[k]).instruction@
            == used_kept(old(function).blocks@[k].instruction@, blocks_used_regs(old(function).blocks@))
            && final(function).blocks@[k].predecesors == old(function).blocks@[k].predecesors,
        effects_kept(final(function).blocks@, old(function).blocks@),
{
    let used = function.get_used_regs();
    let mut change = false;
    let mut bb: usize = 0;
    while bb < function.blocks.len()
        invariant
            0 <= bb <= function.blocks@.len(),
            function.blocks@.len() == old(function).blocks@.len(),
            same_header(*function, *old(function)),
            insts_total(function.blocks@) <= insts_total(old(function).blocks@),
            change == (insts_total(function.blocks@) < insts_total(old(function).blocks@)),
            movs_total(function.blocks@) <= movs_total(old(function).blocks@),
            used@ == blocks_used_regs(old(function).blocks@),
            forall|k: int| bb <= k < function.blocks@.len() ==> #[trigger] function.blocks@[k] == old(function).blocks@[k],
            forall|k: int| 0 <= k < bb ==> (#[trigger] function.blocks@[k]).instruction@ == used_kept(
                old(function).blocks@[k].instruction@,
                used@,
            ) && function.blocks@[k].predecesors == old(function).blocks@[k].predecesors,
        decreases function.blocks@.len() - bb,
    {
        let ghost fb = function.blocks@;
        let mut blk = take_block(function, bb);
        let mut rest: Vec<Instruction> = Vec::new();
        std::mem::swap(&mut rest, &mut blk.instruction);
        let ghost orig = rest@;
        assert(orig.len() == rest.len());
        assert(orig == old(function).blocks@[bb as int].instruction@);
        let mut kept: Vec<Instruction> = Vec::new();
        let mut i: usize = 0;
        while rest.len() > 0
            invariant
                rest@ == orig.skip(i as int),
                i <= orig.len(),
                orig.len() <= usize::MAX,
                kept@.len() <= i,
                movs_in(kept@) <= movs_in(orig.take(i as int)),
                kept@ == used_kept(orig.take(i as int), used@),
            decreases rest@.len(),
        {
            let inst = rest.remove(0);
            proof {
                assert(orig.take(i + 1).drop_last() =~= orig.take(i as int));
                assert(orig.skip(i as int)[0] == orig[i as int]);
                assert(orig.skip(i as int).remove(0) =~= orig.skip(i + 1));
                lemma_push_counts(kept@, inst);
            }
            if !contains_reg(&used, inst.id) && inst.reg_type != RegType::Void {
            } else {
                kept.push(inst);
            }
            i += 1;
        }
        proof {
            assert(orig.take(orig.len() as int) =~= orig);
        }
        let removed = kept.len() < i;
        blk.instruction = kept;
        put_block(function, bb, blk);
        proof {
            lemma_totals_update(fb, bb as int, function.blocks@[bb as int]);
            assert(function.blocks@ =~= fb.update(bb as int, function.blocks@[bb as int]));
        }
        change = change || removed;
        bb += 1;
    }
    proof {
        assert forall|k: int| 0 <= k < function.blocks@.len() implies effect_ids(#[trigger] function.blocks@[k].instruction@)
            == effect_ids(old(function).blocks@[k].instruction@) by {
            lemma_effect_used_kept(old(function).blocks@[k].instruction@, blocks_used_regs(old(function).blocks@));
        }
    }
    change
}


/// Sets the new name of `k` to `v`, replacing an earlier one.
fn set_rename(renames: &mut Vec<(Register, Register)>, k: Register, v: Register)
    ensures
        forall|x: Register| #[trigger] renamed(final(renames)@, x) == if x == k { v } else { renamed(old(renames)@, x) },
        distinct_keys(old(renames)@) ==> distinct_keys(final(renames)@),
{
    let mut i: usize = 0;
    while i < renames.len()
        invariant
            0 <= i <= renames@.len(),
            renames@ == old(renames)@,
            forall|j: int| 0 <= j < i ==> (#[trigger] renames@[j]).0 != k,
        decreases renames@.len() - i,
    {
        if renames[i].0 == k {
            let ghost before = renames@;
            renames.set(i, (k, v));
            proof {
                if distinct_keys(before) {
                    assert forall|a: int, b2: int| 0 <= a < b2 < renames@.len() implies (#[trigger] renames@[a]).0 != (#[trigger] renames@[b2]).0 by {
                        assert(before[a].0 != before[b2].0);
                    }
                }
                assert forall|x: Register| #[trigger] renamed(renames@, x) == if x == k { v } else { renamed(before, x) } by {
                    lemma_renamed_update(before, i as int, (k, v), x);
                }
            }
            return;
        }
        i += 1;
    }
    let ghost before = renames@;
    renames.push((k, v));
    proof {
        if distinct_keys(before) {
            assert forall|a: int, b2: int| 0 <= a < b2 < renames@.len() implies (#[trigger] renames@[a]).0 != (#[trigger] renames@[b2]).0 by {
                if b2 < before.len() {
                    assert(before[a].0 != before[b2].0);
                } else {
                    assert(before[a].0 != k);
                }
            }
        }
        assert forall|x: Register| #[trigger] renamed(renames@, x) == if x == k { v } else { renamed(before, x) } by {
            lemma_renamed_push(before, (k, v), x);
        }
    }
}

/// Removes every copy, making the instructions after it read the copied register in
/// place of the copy; tells whether it removed any.
pub fn remove_movs(function: &mut Function) -> (r: bool)
    ensures
        final(function).blocks@.len() == old(function).blocks@.len(),
        same_header(*final(function), *old(function)),
        insts_total(final(function).blocks@) == insts_total(old(function).blocks@) - movs_total(old(function).blocks@),
        movs_total(final(function).blocks@) == 0,
        r == (movs_total(old(function).blocks@) > 0),
        effects_kept(final(function).blocks@, old(function).blocks@),
{
    let mut renames: Vec<(Register, Register)> = Vec::new();
    let mut change = false;
    let mut bb: usize = 0;
    proof {
        lemma_movs_total_nonneg(function.blocks@);
    }
    while bb < function.blocks.len()
        invariant
            0 <= bb <= function.blocks@.len(),
            function.blocks@.len() == old(function).blocks@.len(),
            same_header(*function, *old(function)),
            forall|k: int| bb <= k < function.blocks@.len() ==> #[trigger] function.blocks@[k] == old(function).blocks@[k],
            movs_total(function.blocks@) == movs_total(old(function).blocks@) - movs_total(old(function).blocks@.take(bb as int)),
            insts_total(function.blocks@) == insts_total(old(function).blocks@) - movs_total(old(function).blocks@.take(bb as int)),
            movs_total(function.blocks@.take(bb as int)) == 0,
            change == (movs_total(old(function).blocks@.take(bb as int)) > 0),
            distinct_keys(renames@),
            forall|k: int| 0 <= k < bb ==> effect_ids(#[trigger] function.blocks@[k].instruction@) == effect_ids(
                old(function).blocks@[k].instruction@,
            ),
        decreases function.blocks@.len() - bb,
    {
        let ghost fb = function.blocks@;
        let mut blk = take_block(function, bb);
        let mut rest: Vec<Instruction> = Vec::new();
        std::mem::swap(&mut rest, &mut blk.instruction);
        let ghost orig = rest@;
        assert(orig.len() == rest.len());
        assert(orig == old(function).blocks@[bb as int].instruction@);
        let mut kept: Vec<Instruction> = Vec::new();
        let mut i: usize = 0;
        while rest.len() > 0
            invariant
                rest@ == orig.skip(i as int),
                i <= orig.len(),
                orig.len() <= usize::MAX,
                kept@.len() == i - movs_in(orig.take(i as int)),
                movs_in(kept@) == 0,
                distinct_keys(renames@),
                effect_ids(kept@) == effect_ids(orig.take(i as int)),
            decreases rest@.len(),
        {
            let inst = rest.remove(0);
            proof {
                assert(orig.take(i + 1).drop_last() =~= orig.take(i as int));
                assert(orig.skip(i as int)[0] == orig[i as int]);
                assert(orig.skip(i as int).remove(0) =~= orig.skip(i + 1));
            }
            proof {
                assert(orig.take(i + 1) =~= orig.take(i as int).push(orig[i as int]));
                lemma_effect_push(orig.take(i as int), orig[i as int]);
            }
            match inst.data {
                InstructionType::Mov(Reg(reg)) => {
                    set_rename(&mut renames, inst.id, reg);
                },
                _ => {
                    let mut inst = inst;
                    let ghost before = inst;
                    inst.data.rename_regs(&renames);
                    proof {
                        assert(!(inst.data is Mov));
                        lemma_push_counts(kept@, inst);
                        lemma_effect_push(kept@, inst);
                        assert(effectful(inst) == effectful(before));
                    }
                    kept.push(inst);
                },
            }
            i += 1;
        }
        proof {
            assert(orig.take(orig.len() as int) =~= orig);
            lemma_movs_bounds(orig);
        }
        let removed = kept.len() < i;
        proof {
            assert(effect_ids(kept@) == effect_ids(orig));
        }
        blk.instruction = kept;
        put_block(function, bb, blk);
        proof {
            assert forall|k: int| 0 <= k < bb + 1 implies effect_ids(#[trigger] function.blocks@[k].instruction@) == effect_ids(
                old(function).blocks@[k].instruction@,
            ) by {
                if k < bb {
                    assert(function.blocks@[k] == fb[k]);
                }
            }
            lemma_totals_update(fb, bb as int, function.blocks@[bb as int]);
            assert(function.blocks@ =~= fb.update(bb as int, function.blocks@[bb as int]));
            let ob = old(function).blocks@;
            assert(ob.take(bb + 1).drop_last() =~= ob.take(bb as int));
            assert(function.blocks@.take(bb + 1).drop_last() =~= fb.take(bb as int)) by {
                assert(function.blocks@.take(bb + 1).drop_last() =~= function.blocks@.take(bb as int));
                assert(function.blocks@.take(bb as int) =~= fb.take(bb as int));
            }
            lemma_movs_total_nonneg(ob.take(bb as int));
        }
        change = change || removed;
        bb += 1;
    }
    proof {
        assert(old(function).blocks@.take(old(function).blocks@.len() as int) =~= old(function).blocks@);
        assert(function.blocks@.take(function.blocks@.len() as int) =~= function.blocks@);
    }
    change
}

/// The allocations that `reg` may point into, as the points-to result gives them.
fn lookup_cells(result: &Vec<(Register, Vec<Cell>)>, reg: Register) -> (r: Vec<Cell>)
    ensures
        r@ == cells_of(result@, reg),
{
    let mut k: usize = 0;
    while k < result.len()
        invariant
            0 <= k <= result@.len(),
            forall|j: int| 0 <= j < k ==> (#[trigger] result@[j]).0 != reg,
        decreases result@.len() - k,
    {
        if result[k].0 == reg {
            let mut out: Vec<Cell> = Vec::new();
            let mut c: usize = 0;
            while c < result[k].1.len()
                invariant
                    0 <= c <= result@[k as int].1@.len(),
                    k < result@.len(),
                    out@ == result@[k as int].1@.take(c as int),
                decreases result@[k as int].1@.len() - c,
            {
                out.push(result[k].1[c]);
                c += 1;
                proof {
                    assert(out@ =~= result@[k as int].1@.take(c as int));
                }
            }
            proof {
                assert(out@ =~= result@[k as int].1@);
                lemma_cells_of_found(result@, reg, k as int);
            }
            return out;
        }
        k += 1;
    }
    proof {
        lemma_cells_of_found(result@, reg, k as int);
    }
    Vec::new()
}

/// Whether `c` occurs in `v`.
fn has_cell(v: &Vec<Cell>, c: Cell) -> (r: bool)
    ensures
        r == v@.contains(c),
{
    let mut k: usize = 0;
    while k < v.len()
        invariant
            0 <= k <= v@.len(),
            forall|m: int| 0 <= m < k ==> v@[m] != c,
        decreases v@.len() - k,
    {
        if v[k] == c {
            return true;
        }
        k += 1;
    }
    false
}

/// Removes the stores to memory that nothing reads: memory that no load and no call
/// can reach and that is not memory from outside; tells whether it removed any.
#[verifier::spinoff_prover]
#[verifier::rlimit(40)]
pub fn remove_unused_stores(function: &mut Function) -> (r: bool)
    ensures
        final(function).blocks@.len() == old(function).blocks@.len(),
        same_header(*final(function), *old(function)),
        insts_total(final(function).blocks@) <= insts_total(old(function).blocks@),
        r == (insts_total(final(function).blocks@) < insts_total(old(function).blocks@)),
        movs_total(final(function).blocks@) == movs_total(old(function).blocks@),
        forall|k: int| 0 <= k < old(function).blocks@.len() ==> only_stores_dropped(
            old(function).blocks@[k].instruction@,
            #[trigger] final(function).blocks@[k].instruction@,
        ) && final(function).blocks@[k].predecesors == old(function).blocks@[k].predecesors,
        effects_kept(final(function).blocks@, old(function).blocks@),
{
    let mut loads: Vec<Register> = Vec::new();
    let mut b: usize = 0;
    while b < function.blocks.len()
        invariant
            0 <= b <= function.blocks@.len(),
        decreases function.blocks@.len() - b,
    {
        let mut i: usize = 0;
        while i < function.blocks[b].instruction.len()
            invariant
                0 <= i <= function.blocks@[b as int].instruction@.len(),
                b < function.blocks@.len(),
            decreases function.blocks@[b as int].instruction@.len() - i,
        {
            match &function.blocks[b].instruction[i].data {
                InstructionType::Ld(Reg(addr)) => loads.push(*addr),
                InstructionType::CallDirect(SymRegs(_, regs)) | InstructionType::SysCall(ImmIRegs(_, regs)) => {
                    let mut k: usize = 0;
                    while k < regs.len()
                        invariant
                            0 <= k <= regs@.len(),
                        decreases regs@.len() - k,
                    {
                        loads.push(regs[k]);
                        k += 1;
                    }
                },
                _ => {},
            }
            i += 1;
        }
        b += 1;
    }
    let result = {
        let mut pointer_analysis = AndersenAnalysis::new(&*function);
        pointer_analysis.analyze()
    };
    let mut load_cells: Vec<Cell> = Vec::new();
    let mut k: usize = 0;
    while k < loads.len()
        invariant
            0 <= k <= loads@.len(),
        decreases loads@.len() - k,
    {
        let cells = lookup_cells(&result, loads[k]);
        let mut c: usize = 0;
        while c < cells.len()
            invariant
                0 <= c <= cells@.len(),
            decreases cells@.len() - c,
        {
            if !has_cell(&load_cells, cells[c]) {
                load_cells.push(cells[c]);
            }
            c += 1;
        }
        k += 1;
    }
    let mut change = false;
    let mut bb: usize = 0;
    while bb < function.blocks.len()
        invariant
            0 <= bb <= function.blocks@.len(),
            function.blocks@.len() == old(function).blocks@.len(),
            same_header(*function, *old(function)),
            insts_total(function.blocks@) <= insts_total(old(function).blocks@),
            change == (insts_total(function.blocks@) < insts_total(old(function).blocks@)),
            movs_total(function.blocks@) == movs_total(old(function).blocks@),
            forall|k: int| bb <= k < function.blocks@.len() ==> #[trigger] function.blocks@[k] == old(function).blocks@[k],
            forall|k: int| 0 <= k < bb ==> only_stores_dropped(
                old(function).blocks@[k].instruction@,
                #[trigger] function.blocks@[k].instruction@,
            ) && function.blocks@[k].predecesors == old(function).blocks@[k].predecesors,
        decreases function.blocks@.len() - bb,
    {
        let ghost fb = function.blocks@;
        let mut blk = take_block(function, bb);
        let mut rest: Vec<Instruction> = Vec::new();
        std::mem::swap(&mut rest, &mut blk.instruction);
        let ghost orig = rest@;
        assert(orig.len() == rest.len());
        assert(orig == old(function).blocks@[bb as int].instruction@);
        let mut kept: Vec<Instruction> = Vec::new();
        let mut i: usize = 0;
        let ghost mut keep: Seq<bool> = Seq::empty();
        while rest.len() > 0
            invariant
                rest@ == orig.skip(i as int),
                i <= orig.len(),
                orig.len() <= usize::MAX,
                kept@.len() <= i,
                movs_in(kept@) == movs_in(orig.take(i as int)),
                keep.len() == i,
                forall|j: int| 0 <= j < i && !keep[j] ==> orig[j].data is St,
                kept@ == masked(orig.take(i as int), keep),
            decreases rest@.len(),
        {
            let inst = rest.remove(0);
            proof {
                assert(orig.take(i + 1).drop_last() =~= orig.take(i as int));
                assert(orig.skip(i as int)[0] == orig[i as int]);
                assert(orig.skip(i as int).remove(0) =~= orig.skip(i + 1));
                lemma_push_counts(kept@, inst);
            }
            let drop = match &inst.data {
                InstructionType::St(RegReg(addr, _)) => {
                    let cells = lookup_cells(&result, *addr);
                    let mut disjoint = true;
                    let mut c: usize = 0;
                    while c < cells.len()
                        invariant
                            0 <= c <= cells@.len(),
                        decreases cells@.len() - c,
                    {
                        if has_cell(&load_cells, cells[c]) {
                            disjoint = false;
                        }
                        c += 1;
                    }
                    disjoint && !has_cell(&cells, Cell::Volatile)
                },
                _ => false,
            };
            let ghost inst_v = inst;
            if !drop {
                kept.push(inst);
            }
            proof {
                assert(orig.take(i + 1).last() == inst_v);
                assert(keep.push(!drop).drop_last() =~= keep);
                keep = keep.push(!drop);
            }
            i += 1;
        }
        proof {
            assert(orig.take(orig.len() as int) =~= orig);
            assert(only_stores_dropped(orig, kept@));
        }
        let ghost kv = kept@;
        let removed = kept.len() < i;
        blk.instruction = kept;
        put_block(function, bb, blk);
        proof {
            assert(function.blocks@[bb as int].instruction@ == kv);
            assert forall|k: int| 0 <= k < bb + 1 implies only_stores_dropped(
                old(function).blocks@[k].instruction@,
                #[trigger] function.blocks@[k].instruction@,
            ) && function.blocks@[k].predecesors == old(function).blocks@[k].predecesors by {
                if k < bb {
                    assert(function.blocks@[k] == fb[k]);
                }
            }
            lemma_totals_update(fb, bb as int, function.blocks@[bb as int]);
            assert(function.blocks@ =~= fb.update(bb as int, function.blocks@[bb as int]));
        }
        change = change || removed;
        bb += 1;
    }
    proof {
        assert forall|k: int| 0 <= k < function.blocks@.len() implies effect_ids(#[trigger] function.blocks@[k].instruction@)
            == effect_ids(old(function).blocks@[k].instruction@) by {
            let o = old(function).blocks@[k].instruction@;
            let n = function.blocks@[k].instruction@;
            assert(only_stores_dropped(o, n));
            let keep = choose|keep: Seq<bool>| #![trigger masked(o, keep)]
                keep.len() == o.len() && (forall|i: int| 0 <= i < o.len() && !keep[i] ==> o[i].data is St) && n == masked(o, keep);
            lemma_effect_masked(o, keep);
        }
    }
    change
}

proof fn lemma_movs_update(s: Seq<Instruction>, i: int, x: Instruction)
    requires
        0 <= i < s.len(),
    ensures
        movs_in(s.update(i, x)) == movs_in(s) - (if s[i].data is Mov { 1int } else { 0int }) + (if x.data is Mov { 1int } else { 0int }),
    decreases s.len(),
{
    if i < s.len() - 1 {
        assert(s.update(i, x).drop_last() =~= s.drop_last().update(i, x));
        lemma_movs_update(s.drop_last(), i, x);
    } else {
        assert(s.update(i, x).drop_last() =~= s.drop_last());
    }
}

/// The first position of `p` among the places, if any.
fn place_position(places: &Vec<MemoryPlace>, p: MemoryPlace) -> (r: Option<usize>)
    ensures
        match r {
            Some(k) => k < places@.len() && places@[k as int] == p && forall|j: int| 0 <= j < k ==> places@[j] != p,
            None => !places@.contains(p),
        },
{
    let mut k: usize = 0;
    while k < places.len()
        invariant
            0 <= k <= places@.len(),
            forall|j: int| 0 <= j < k ==> places@[j] != p,
        decreases places@.len() - k,
    {
        if places[k] == p {
            return Some(k);
        }
        k += 1;
    }
    None
}

/// One pass of removing memory traffic: a load from a place that surely holds one
/// register becomes a copy of that register; then unread stores, copies and unused
/// instructions go. Tells whether the function changed, which is when it lost
/// instructions.
pub fn remove_store_load(function: &mut Function) -> (r: bool)
    ensures
        final(function).blocks@.len() == old(function).blocks@.len(),
        same_header(*final(function), *old(function)),
        insts_total(final(function).blocks@) <= insts_total(old(function).blocks@),
        r == (insts_total(final(function).blocks@) < insts_total(old(function).blocks@)),
        movs_total(final(function).blocks@) == 0,
        effects_kept(final(function).blocks@, old(function).blocks@),
{
    let keys = get_stores(&*function);
    let result = {
        let mut const_analysis = ConstantMemoryAnalysis::new(&*function);
        const_analysis.analyze()
    };
    let ghost f0 = function.blocks@;
    let mut change = false;
    proof {
        lemma_movs_total_nonneg(function.blocks@);
    }
    let mut bb: usize = 0;
    while bb < function.blocks.len()
        invariant
            0 <= bb <= function.blocks@.len(),
            function.blocks@.len() == f0.len(),
            same_header(*function, *old(function)),
            f0 == old(function).blocks@,
            shaped(*old(function), result@),
            forall|k: int| 0 <= k < f0.len() ==> (#[trigger] function.blocks@[k]).instruction@.len() == f0[k].instruction@.len(),
            insts_total(function.blocks@) == insts_total(f0),
            movs_total(function.blocks@) >= 0,
            change ==> movs_total(function.blocks@) > 0,
            effects_kept(function.blocks@, f0),
        decreases function.blocks@.len() - bb,
    {
        let mut i: usize = 0;
        while i < function.blocks[bb].instruction.len()
            invariant
                0 <= i <= function.blocks@[bb as int].instruction@.len(),
                bb < function.blocks@.len(),
                function.blocks@.len() == f0.len(),
                same_header(*function, *old(function)),
                f0 == old(function).blocks@,
                shaped(*old(function), result@),
                forall|k: int| 0 <= k < f0.len() ==> (#[trigger] function.blocks@[k]).instruction@.len() == f0[k].instruction@.len(),
                insts_total(function.blocks@) == insts_total(f0),
                movs_total(function.blocks@) >= 0,
                change ==> movs_total(function.blocks@) > 0,
                effects_kept(function.blocks@, f0),
            decreases function.blocks@[bb as int].instruction@.len() - i,
        {
            let found: Option<Register> = match &function.blocks[bb].instruction[i].data {
                InstructionType::Ld(Reg(addr)) => {
                    match place_position(&keys, MemoryPlace(*addr)) {
                        Some(k) => {
                            assert(result@[bb as int]@.len() == f0[bb as int].instruction@.len());
                            let state = &result[bb][i];
                            if k < state.len() {
                                match state[k] {
                                    FlatElem::Value(val) => Some(val),
                                    _ => None,
                                }
                            } else {
                                None
                            }
                        },
                        None => None,
                    }
                },
                _ => None,
            };
            if let Some(val) = found {
                let ghost fb = function.blocks@;
                let mut blk = take_block(function, bb);
                let ghost ob = blk.instruction@;
                let id = blk.instruction[i].id;
                let ty = blk.instruction[i].reg_type;
                proof {
                    assert(ob[i as int].data is Ld);
                }
                blk.instruction.set(i, Instruction::new(id, ty, InstructionType::Mov(Reg(val))));
                proof {
                    lemma_movs_update(ob, i as int, blk.instruction@[i as int]);
                    assert(blk.instruction@ =~= ob.update(i as int, blk.instruction@[i as int]));
                }
                put_block(function, bb, blk);
                proof {
                    lemma_totals_update(fb, bb as int, function.blocks@[bb as int]);
                    assert(function.blocks@ =~= fb.update(bb as int, function.blocks@[bb as int]));
                    lemma_movs_bounds(fb[bb as int].instruction@);
                    lemma_effect_update(ob, i as int, blk.instruction@[i as int]);
                    assert forall|k: int| 0 <= k < function.blocks@.len() implies effect_ids(#[trigger] function.blocks@[k].instruction@)
                        == effect_ids(f0[k].instruction@) by {
                        if k != bb {
                            assert(function.blocks@[k] == fb[k]);
                        } else {
                            assert(function.blocks@[k].instruction@ == ob.update(i as int, blk.instruction@[i as int]));
                            assert(effect_ids(ob) == effect_ids(fb[k].instruction@));
                        }
                    }
                }
                change = true;
            }
            i += 1;
        }
        bb += 1;
    }
    let ghost t0 = insts_total(function.blocks@);
    let ghost e0 = function.blocks@;
    let c2 = remove_unused_stores(function);
    let ghost e1 = function.blocks@;
    let c3 = remove_movs(function);
    let ghost e2 = function.blocks@;
    let c4 = remove_unused_instruction(function);
    proof {
        lemma_movs_total_nonneg(function.blocks@);
        assert forall|k: int| 0 <= k < function.blocks@.len() implies effect_ids(#[trigger] function.blocks@[k].instruction@)
            == effect_ids(old(function).blocks@[k].instruction@) by {
            assert(effect_ids(function.blocks@[k].instruction@) == effect_ids(e2[k].instruction@));
            assert(effect_ids(e2[k].instruction@) == effect_ids(e1[k].instruction@));
            assert(effect_ids(e1[k].instruction@) == effect_ids(e0[k].instruction@));
            assert(effect_ids(e0[k].instruction@) == effect_ids(f0[k].instruction@));
        }
    }
    change || c2 || c3 || c4
}
} // verus!
