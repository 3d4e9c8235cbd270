use vstd::prelude::*;

use crate::backend::backend_ir::{AsmBasicBlock, AsmFunction};
use crate::backend::insts::{AsmInstruction, Rd};
use crate::middleend::analysis::dataflow::capped;

verus! {

/// A database of rewrites of short sequences of instructions into sequences that do the
/// same and are no longer.
pub trait Database {
    /// The rewrite of `insts`, if the database has one.
    spec fn rewrite(&self, insts: Seq<AsmInstruction>) -> Option<Seq<AsmInstruction>>;

    fn query(&self, insts: &[AsmInstruction]) -> (r: Option<Vec<AsmInstruction>>)
        ensures
            r matches Some(v) ==> v@.len() <= insts@.len(),
            match self.rewrite(insts@) {
                Some(s) => r matches Some(v) && v@ == s,
                None => r is None,
            },
    ;
}

/// A fixed set of rewrites of one or two instructions.
pub struct MockDatabase {}

/// The rewrite of `s` in the fixed set, if there is one.
pub open spec fn mock_rewrite(s: Seq<AsmInstruction>) -> Option<Seq<AsmInstruction>> {
    if s.len() == 1 {
        match s[0] {
            AsmInstruction::Addi(rd1, rs1, imm) => if rd1 == rs1 && imm == 0 {
                Some(seq![])
            } else {
                None
            },
            _ => None,
        }
    } else if s.len() == 2 {
        match (s[0], s[1]) {
            (AsmInstruction::Addi(reg, Rd::Zero, imm), AsmInstruction::Add(out_reg, rs1, rs2)) => if reg == rs2 {
                Some(seq![AsmInstruction::Addi(reg, Rd::Zero, imm), AsmInstruction::Addi(out_reg, rs1, imm)])
            } else {
                None
            },
            (AsmInstruction::Addi(reg, Rd::Zero, imm), AsmInstruction::Sub(out_reg, rs1, rs2)) => if reg == rs2 {
                Some(seq![AsmInstruction::Addi(reg, Rd::Zero, imm), AsmInstruction::Addi(out_reg, rs1, vstd::wrapping::i64_specs::wrapping_sub(0, imm))])
            } else {
                None
            },
            (AsmInstruction::Addi(reg, rs, imm1), AsmInstruction::Addi(out_reg, rs1, imm2)) => if reg == rs1 && reg != rs {
                Some(seq![AsmInstruction::Addi(out_reg, rs, vstd::wrapping::i64_specs::wrapping_add(imm1, imm2))])
            } else {
                None
            },
            (AsmInstruction::Addi(reg, Rd::Sp, imm), AsmInstruction::Ld(out_reg, rs1, off)) => if reg == rs1 && reg != Rd::Sp && off == 0 {
                Some(seq![AsmInstruction::Addi(reg, Rd::Sp, imm), AsmInstruction::Ld(out_reg, Rd::Sp, imm)])
            } else {
                None
            },
            (AsmInstruction::Addi(reg, Rd::Sp, imm), AsmInstruction::Sd(out_reg, rs1, off)) => if reg == rs1 && reg != Rd::Sp && off == 0 {
                Some(seq![AsmInstruction::Addi(reg, Rd::Sp, imm), AsmInstruction::Sd(out_reg, Rd::Sp, imm)])
            } else {
                None
            },
            (AsmInstruction::Sd(rd_sd, rs_sd, offset_sd), AsmInstruction::Ld(rd_ld, rs_ld, offset_ld)) => if rs_sd == rs_ld && offset_sd == offset_ld {
                Some(seq![AsmInstruction::Sd(rd_sd, rs_sd, offset_sd), AsmInstruction::Addi(rd_ld, rd_sd, 0)])
            } else {
                None
            },
            _ => None,
        }
    } else {
        None
    }
}

impl Database for MockDatabase {
    open spec fn rewrite(&self, insts: Seq<AsmInstruction>) -> Option<Seq<AsmInstruction>> {
        mock_rewrite(insts)
    }

    /// Removes an addition of zero to a register itself; folds a constant loaded into a
    /// register into the addition or subtraction that reads it, and two additions of
    /// constants into one; reads and writes the stack at a constant offset directly;
    /// and turns a load of what was just stored into a copy.
    fn query(&self, insts: &[AsmInstruction]) -> (r: Option<Vec<AsmInstruction>>)
        ensures
            match mock_rewrite(insts@) {
                Some(s) => r matches Some(v) && v@ == s,
                None => r is None,
            },
    {
        if insts.len() == 1 {
            return match &insts[0] {
                AsmInstruction::Addi(rd1, rs1, imm) => if *rd1 == *rs1 && *imm == 0 {
                    let v: Vec<AsmInstruction> = Vec::new();
                    assert(v@ =~= seq![]);
                    Some(v)
                } else {
                    None
                },
                _ => None,
            };
        }
        if insts.len() != 2 {
            return None;
        }
        let r: Option<Vec<AsmInstruction>> = match (&insts[0], &insts[1]) {
            (AsmInstruction::Addi(reg, Rd::Zero, imm), AsmInstruction::Add(out_reg, rs1, rs2)) => if *reg == *rs2 {
                Some(vec![AsmInstruction::Addi(*reg, Rd::Zero, *imm), AsmInstruction::Addi(*out_reg, *rs1, *imm)])
            } else {
                None
            },
            (AsmInstruction::Addi(reg, Rd::Zero, imm), AsmInstruction::Sub(out_reg, rs1, rs2)) => if *reg == *rs2 {
                Some(vec![AsmInstruction::Addi(*reg, Rd::Zero, *imm), AsmInstruction::Addi(*out_reg, *rs1, 0i64.wrapping_sub(*imm))])
            } else {
                None
            },
            (AsmInstruction::Addi(reg, rs, imm1), AsmInstruction::Addi(out_reg, rs1, imm2)) => if *reg == *rs1 && *reg != *rs {
                Some(vec![AsmInstruction::Addi(*out_reg, *rs, imm1.wrapping_add(*imm2))])
            } else {
                None
            },
            (AsmInstruction::Addi(reg, Rd::Sp, imm), AsmInstruction::Ld(out_reg, rs1, off)) => if *reg == *rs1 && *reg != Rd::Sp && *off == 0 {
                Some(vec![AsmInstruction::Addi(*reg, Rd::Sp, *imm), AsmInstruction::Ld(*out_reg, Rd::Sp, *imm)])
            } else {
                None
            },
            (AsmInstruction::Addi(reg, Rd::Sp, imm), AsmInstruction::Sd(out_reg, rs1, off)) => if *reg == *rs1 && *reg != Rd::Sp && *off == 0 {
                Some(vec![AsmInstruction::Addi(*reg, Rd::Sp, *imm), AsmInstruction::Sd(*out_reg, Rd::Sp, *imm)])
            } else {
                None
            },
            (AsmInstruction::Sd(rd_sd, rs_sd, offset_sd), AsmInstruction::Ld(rd_ld, rs_ld, offset_ld)) => if *rs_sd == *rs_ld && *offset_sd == *offset_ld {
                Some(vec![AsmInstruction::Sd(*rd_sd, *rs_sd, *offset_sd), AsmInstruction::Addi(*rd_ld, *rd_sd, 0)])
            } else {
                None
            },
            _ => None,
        };
        r
    }
}


/// The fuel of the rewrites at one place of a block of `n` instructions.
pub open spec fn rewrite_fuel(n: int) -> int {
    capped(capped(n + n) + 2)
}

/// The block after rewriting the `size` instructions at `index` as long as the database
/// has a rewrite for them, at most `fuel` times; and whether some rewrite happened.
pub open spec fn rewritten<D: Database>(db: D, block: Seq<AsmInstruction>, index: int, size: int, fuel: int) -> (
    Seq<AsmInstruction>,
    bool,
)
    decreases fuel,
{
    if fuel <= 0 || !(0 <= index <= block.len() && 0 <= size < block.len() - index) {
        (block, false)
    } else {
        match db.rewrite(block.subrange(index, index + size)) {
            None => (block, false),
            Some(rw) => (rewritten(db, block.take(index) + rw + block.skip(index + size), index, size, fuel - 1).0, true),
        }
    }
}

/// One sweep over a block with windows of `s` instructions, from `index` on, while a
/// window of `size` instructions fits; and whether some rewrite happened.
pub open spec fn swept<D: Database>(db: D, block: Seq<AsmInstruction>, s: int, size: int, index: int) -> (
    Seq<AsmInstruction>,
    bool,
)
    decreases usize::MAX - index,
{
    if !(0 <= index <= block.len() && 0 <= size <= block.len() - index) || index > usize::MAX {
        (block, false)
    } else {
        let (b1, c1) = rewritten(db, block, index, s, rewrite_fuel(block.len() as int));
        if index == usize::MAX {
            (b1, c1)
        } else {
            let (b2, c2) = swept(db, b1, s, size, index + 1);
            (b2, c1 || c2)
        }
    }
}

/// Sweeps with windows of every length from `s` up to `size`; and whether some rewrite
/// happened.
pub open spec fn passed<D: Database>(db: D, block: Seq<AsmInstruction>, s: int, size: int) -> (Seq<AsmInstruction>, bool)
    decreases size - s + 1,
{
    if s > size || s > usize::MAX || s < 1 {
        (block, false)
    } else {
        let (b1, c1) = swept(db, block, s, size, 0);
        if s == usize::MAX {
            (b1, c1)
        } else {
            let (b2, c2) = passed(db, b1, s + 1, size);
            (b2, c1 || c2)
        }
    }
}

/// Rewrites short sequences of instructions by the rules of a database.
pub struct PeepHoler<'a, D: Database> {
    pub database: &'a D,
}

/// A copy of the instructions of `block` from `start` to `end`.
fn window(block: &AsmBasicBlock, start: usize, end: usize) -> (r: Vec<AsmInstruction>)
    requires
        start <= end <= block@.len(),
    ensures
        r@ == block@.subrange(start as int, end as int),
{
    let mut out: Vec<AsmInstruction> = Vec::new();
    let mut i: usize = start;
    while i < end
        invariant
            start <= i <= end,
            end <= block@.len(),
            out@ == block@.subrange(start as int, i as int),
        decreases end - i,
    {
        out.push(block[i].duplicate());
        proof {
            assert(block@.subrange(start as int, i + 1) =~= block@.subrange(start as int, i as int).push(block@[i as int]));
        }
        i += 1;
    }
    out
}

impl<'a, D: Database> PeepHoler<'a, D> {
    pub fn new(database: &'a D) -> (p: Self)
        ensures
            p.database == database,
    {
        Self { database }
    }

    /// Rewrites the `size` instructions at `index` as long as the database has a rewrite
    /// for them, at most a number of times that grows with the block.
    pub fn find_and_replace(&self, block: &mut AsmBasicBlock, index: usize, size: usize) -> (r: bool)
        ensures
            final(block)@.len() <= old(block)@.len(),
            !r ==> final(block)@ == old(block)@,
            final(block)@.take(index as int) == old(block)@.take(index as int) || index > old(block)@.len(),
            (final(block)@, r) == rewritten(
                *self.database,
                old(block)@,
                index as int,
                size as int,
                rewrite_fuel(old(block)@.len() as int),
            ),
    {
        let mut change = false;
        let mut fuel: usize = block.len().saturating_add(block.len()).saturating_add(2);
        let ghost total = rewritten(*self.database, block@, index as int, size as int, fuel as int);
        while fuel > 0 && index <= block.len() && size <= block.len() - index && size < block.len() - index
            invariant
                block@.len() <= old(block)@.len(),
                !change ==> block@ == old(block)@,
                block@.take(index as int) == old(block)@.take(index as int) || index > old(block)@.len(),
                total == rewritten(*self.database, old(block)@, index as int, size as int, rewrite_fuel(old(block)@.len() as int)),
                rewritten(*self.database, block@, index as int, size as int, fuel as int).0 == total.0,
                total.1 == (change || rewritten(*self.database, block@, index as int, size as int, fuel as int).1),
            ensures
                block@.len() <= old(block)@.len(),
                !change ==> block@ == old(block)@,
                block@.take(index as int) == old(block)@.take(index as int) || index > old(block)@.len(),
                block@ == total.0,
                change == total.1,
            decreases fuel,
        {
            let w = window(block, index, index + size);
            let result = self.database.query(w.as_slice());
            fuel -= 1;
            match result {
                Some(rewrite) => {
                    let ghost before = block@;
                    assert(before.len() == block.len());
                    change = true;
                    let mut k: usize = 0;
                    while k < size
                        invariant
                            0 <= k <= size,
                            index + size <= before.len(),
                            block@ == before.take(index as int) + before.skip(index + k),
                        decreases size - k,
                    {
                        block.remove(index);
                        proof {
                            assert(block@ =~= before.take(index as int) + before.skip(index + k + 1));
                        }
                        k += 1;
                    }
                    let mut i: usize = 0;
                    while i < rewrite.len()
                        invariant
                            0 <= i <= rewrite@.len(),
                            rewrite@.len() <= size,
                            index + size <= before.len(),
                            before.len() <= usize::MAX,
                            block@ == before.take(index as int) + rewrite@.take(i as int) + before.skip(index + size),
                        decreases rewrite@.len() - i,
                    {
                        block.insert(index + i, rewrite[i].duplicate());
                        proof {
                            assert(block@ =~= before.take(index as int) + rewrite@.take(i + 1) + before.skip(index + size));
                        }
                        i += 1;
                    }
                    proof {
                        assert(block@.take(index as int) =~= before.take(index as int));
                        assert(rewrite@.take(rewrite@.len() as int) =~= rewrite@);
                        assert(w@ == before.subrange(index as int, index + size));
                    }
                },
                None => break,
            }
        }
        change
    }

    /// Tries rewrites of every length up to `size` at every place of the block.
    pub fn pass_basicblock(&self, block: &mut AsmBasicBlock, size: usize) -> (r: bool)
        ensures
            final(block)@.len() <= old(block)@.len(),
            !r ==> final(block)@ == old(block)@,
            (final(block)@, r) == passed(*self.database, old(block)@, 1, size as int),
    {
        let ghost db = *self.database;
        let ghost total = passed(db, block@, 1, size as int);
        let mut change = false;
        let mut s: usize = 1;
        while s <= size
            invariant_except_break
                passed(db, block@, s as int, size as int).0 == total.0,
                total.1 == (change || passed(db, block@, s as int, size as int).1),
            invariant
                1 <= s,
                block@.len() <= old(block)@.len(),
                !change ==> block@ == old(block)@,
                db == *self.database,
                total == passed(db, old(block)@, 1, size as int),
            ensures
                block@.len() <= old(block)@.len(),
                !change ==> block@ == old(block)@,
                block@ == total.0,
                change == total.1,
            decreases size - s + 1,
        {
            let mut index: usize = 0;
            let n = block.len();
            let ghost bs = block@;
            let ghost c0 = change;
            let ghost sweep = swept(db, bs, s as int, size as int, 0);
            while index <= block.len() && size <= block.len() - index
                invariant_except_break
                    swept(db, block@, s as int, size as int, index as int).0 == sweep.0,
                    (c0 || sweep.1) == (change || swept(db, block@, s as int, size as int, index as int).1),
                invariant
                    block@.len() <= old(block)@.len(),
                    block@.len() <= n,
                    index <= n + 1,
                    !change ==> block@ == old(block)@,
                    db == *self.database,
                    sweep == swept(db, bs, s as int, size as int, 0),
                ensures
                    block@.len() <= old(block)@.len(),
                    !change ==> block@ == old(block)@,
                    block@ == sweep.0,
                    change == (c0 || sweep.1),
                decreases n + 1 - index,
            {
                let c = self.find_and_replace(block, index, s);
                change = change || c;
                if index == usize::MAX {
                    break;
                }
                index += 1;
            }
            if s == usize::MAX {
                break;
            }
            s += 1;
        }
        change
    }

    /// Runs a pass over every block of a function.
    pub fn pass_function(&self, function: &mut AsmFunction, size: usize) -> (r: bool)
        ensures
            final(function).blocks@.len() == old(function).blocks@.len(),
            final(function).name == old(function).name,
            forall|k: int| 0 <= k < old(function).blocks@.len() ==> (#[trigger] final(function).blocks@[k])@ == passed(
                *self.database,
                old(function).blocks@[k]@,
                1,
                size as int,
            ).0,
            r == exists|k: int| 0 <= k < old(function).blocks@.len() && #[trigger] passed(
                *self.database,
                old(function).blocks@[k]@,
                1,
                size as int,
            ).1,
            !r ==> forall|k: int| 0 <= k < final(function).blocks@.len() ==> (#[trigger] final(function).blocks@[k])@
                == old(function).blocks@[k]@,
    {
        let mut change = false;
        let mut b: usize = 0;
        while b < function.blocks.len()
            invariant
                0 <= b <= function.blocks@.len(),
                function.blocks@.len() == old(function).blocks@.len(),
                function.name == old(function).name,
                !change ==> forall|k: int| 0 <= k < function.blocks@.len() ==> (#[trigger] function.blocks@[k])@
                    == old(function).blocks@[k]@,
                forall|k: int| b <= k < function.blocks@.len() ==> #[trigger] function.blocks@[k] == old(function).blocks@[k],
                forall|k: int| 0 <= k < b ==> (#[trigger] function.blocks@[k])@ == passed(
                    *self.database,
                    old(function).blocks@[k]@,
                    1,
                    size as int,
                ).0,
                change == exists|k: int| 0 <= k < b && #[trigger] passed(
                    *self.database,
                    old(function).blocks@[k]@,
                    1,
                    size as int,
                ).1,
            decreases function.blocks@.len() - b,
        {
            let mut blk: AsmBasicBlock = Vec::new();
            let mut blocks: Vec<AsmBasicBlock> = Vec::new();
            std::mem::swap(&mut blocks, &mut function.blocks);
            let ghost bs = blocks@;
            let mut cur = blocks.remove(b);
            let c = self.pass_basicblock(&mut cur, size);
            blocks.insert(b, cur);
            proof {
                assert forall|k: int| 0 <= k < blocks@.len() implies (#[trigger] blocks@[k])@ == (if k == b { if c { blocks@[k]@ } else { bs[k]@ } } else { bs[k]@ }) by {
                    if k != b {
                        assert(blocks@[k] == bs[k]);
                    }
                }
            }
            std::mem::swap(&mut blocks, &mut function.blocks);
            proof {
                assert forall|k: int| 0 <= k < b + 1 implies (#[trigger] function.blocks@[k])@ == passed(
                    *self.database,
                    old(function).blocks@[k]@,
                    1,
                    size as int,
                ).0 by {
                    if k < b {
                        assert(function.blocks@[k] == bs[k]);
                    }
                }
                assert forall|k: int| b + 1 <= k < function.blocks@.len() implies #[trigger] function.blocks@[k] == old(function).blocks@[k] by {
                    assert(function.blocks@[k] == bs[k]);
                }
                if c {
                    assert(passed(*self.database, old(function).blocks@[b as int]@, 1, size as int).1);
                }
            }
            change = change || c;
            b += 1;
        }
        change
    }
}

} // verus!
