use vstd::prelude::*;

use crate::middleend::ir::{Function, Register};

verus! {

/// A lattice of values of type `A`, with its greatest and least elements and the least
/// upper bound of two elements.
pub trait Lattice<A> {
    /// Whether `r` is the least element.
    spec fn is_bot(&self, r: A) -> bool;

    /// Whether `r` is the least upper bound of `a` and `b`.
    spec fn is_lub(&self, a: A, b: A, r: A) -> bool;

    fn top(&self) -> A;

    fn bot(&self) -> (r: A)
        ensures
            self.is_bot(r),
    ;

    fn lub(&self, a: &A, b: &A) -> (r: A)
        ensures
            self.is_lub(*a, *b, r),
    ;
}

/// Elements of the flat lattice over registers: nothing known, exactly one register,
/// or anything.
#[derive(Clone, Copy, PartialEq, Eq, Debug, Hash, Structural)]
pub enum FlatElem {
    Top,
    Value(Register),
    Bot,
}

/// Least upper bound in the flat lattice.
pub open spec fn flat_lub(a: FlatElem, b: FlatElem) -> FlatElem {
    match (a, b) {
        (FlatElem::Top, _) => FlatElem::Top,
        (_, FlatElem::Top) => FlatElem::Top,
        (FlatElem::Value(x), FlatElem::Value(y)) => if x == y {
            FlatElem::Value(x)
        } else {
            FlatElem::Top
        },
        (x, FlatElem::Bot) => x,
        (FlatElem::Bot, x) => x,
    }
}

/// Order of the flat lattice: `a` lies below `b`.
pub open spec fn flat_le(a: FlatElem, b: FlatElem) -> bool {
    flat_lub(a, b) == b
}

/// The flat lattice over registers.
pub struct FlatLattice {}

impl FlatLattice {
    pub fn new() -> (l: Self) {
        FlatLattice {}
    }
}

impl Lattice<FlatElem> for FlatLattice {
    open spec fn is_bot(&self, r: FlatElem) -> bool {
        r == FlatElem::Bot
    }

    open spec fn is_lub(&self, a: FlatElem, b: FlatElem, r: FlatElem) -> bool {
        r == flat_lub(a, b)
    }

    fn top(&self) -> (r: FlatElem)
        ensures
            r == FlatElem::Top,
    {
        FlatElem::Top
    }

    fn bot(&self) -> (r: FlatElem)
        ensures
            r == FlatElem::Bot,
    {
        FlatElem::Bot
    }

    fn lub(&self, a: &FlatElem, b: &FlatElem) -> (r: FlatElem)
        ensures
            r == flat_lub(*a, *b),
    {
        let r = match (a, b) {
            (FlatElem::Top, _) => FlatElem::Top,
            (_, FlatElem::Top) => FlatElem::Top,
            (FlatElem::Value(x), FlatElem::Value(y)) => if *x == *y {
                FlatElem::Value(*x)
            } else {
                FlatElem::Top
            },
            (x, FlatElem::Bot) => *x,
            (FlatElem::Bot, x) => *x,
        };
        assert(self.is_lub(*a, *b, r));
        r
    }
}

/// The least upper bound in the flat lattice does not depend on the order of its operands.
pub proof fn lemma_flat_lub_commutative(a: FlatElem, b: FlatElem)
    ensures
        flat_lub(a, b) == flat_lub(b, a),
{
}

/// Joining in the flat lattice is associative.
pub proof fn lemma_flat_lub_associative(a: FlatElem, b: FlatElem, c: FlatElem)
    ensures
        flat_lub(flat_lub(a, b), c) == flat_lub(a, flat_lub(b, c)),
{
}

/// Joining an element with itself gives the element; the least element is neutral and
/// the greatest absorbs.
pub proof fn lemma_flat_lub_idempotent_bounds(a: FlatElem)
    ensures
        flat_lub(a, a) == a,
        flat_lub(a, FlatElem::Bot) == a,
        flat_lub(FlatElem::Bot, a) == a,
        flat_lub(a, FlatElem::Top) == FlatElem::Top,
{
}

/// The join is an upper bound, and the least one.
pub proof fn lemma_flat_lub_least(a: FlatElem, b: FlatElem, c: FlatElem)
    ensures
        flat_le(a, flat_lub(a, b)),
        flat_le(b, flat_lub(a, b)),
        flat_le(a, c) && flat_le(b, c) ==> flat_le(flat_lub(a, b), c),
{
}

/// Whether `e` occurs in `v`.
pub fn contains_reg(v: &Vec<Register>, e: Register) -> (r: bool)
    ensures
        r == v@.contains(e),
{
    let mut i: usize = 0;
    while i < v.len()
        invariant
            0 <= i <= v@.len(),
            forall|j: int| 0 <= j < i ==> v@[j] != e,
        decreases v@.len() - i,
    {
        if v[i] == e {
            return true;
        }
        i += 1;
    }
    false
}

/// The lattice of the subsets of a set of registers, ordered by inclusion; a subset is
/// held in a vector.
pub struct PowerSetLattice {
    pub set: Vec<Register>,
}

impl PowerSetLattice {
    pub fn new(set: Vec<Register>) -> (l: Self)
        ensures
            l.set@ == set@,
    {
        Self { set }
    }
}

impl Lattice<Vec<Register>> for PowerSetLattice {
    open spec fn is_bot(&self, r: Vec<Register>) -> bool {
        r@.len() == 0
    }

    open spec fn is_lub(&self, a: Vec<Register>, b: Vec<Register>, r: Vec<Register>) -> bool {
        &&& r@.to_set() == a@.to_set().union(b@.to_set())
        &&& a@.no_duplicates() ==> r@.no_duplicates()
        &&& r@.take(a@.len() as int) == a@
    }

    fn top(&self) -> (r: Vec<Register>)
        ensures
            r@ == self.set@,
    {
        let mut out: Vec<Register> = Vec::new();
        let mut i: usize = 0;
        while i < self.set.len()
            invariant
                0 <= i <= self.set@.len(),
                out@ == self.set@.take(i as int),
            decreases self.set@.len() - i,
        {
            out.push(self.set[i]);
            i += 1;
        }
        assert(out@ =~= self.set@);
        out
    }

    fn bot(&self) -> (r: Vec<Register>)
        ensures
            r@.len() == 0,
    {
        Vec::new()
    }

    fn lub(&self, a: &Vec<Register>, b: &Vec<Register>) -> (r: Vec<Register>)
        ensures
            r@.to_set() == a@.to_set().union(b@.to_set()),
            a@.no_duplicates() ==> r@.no_duplicates(),
            r@.take(a@.len() as int) == a@,
    {
        let mut out: Vec<Register> = Vec::new();
        let mut i: usize = 0;
        while i < a.len()
            invariant
                0 <= i <= a@.len(),
                out@ == a@.take(i as int),
            decreases a@.len() - i,
        {
            out.push(a[i]);
            i += 1;
        }
        assert(out@ =~= a@);
        let mut j: usize = 0;
        while j < b.len()
            invariant
                0 <= j <= b@.len(),
                out@.take(a@.len() as int) == a@,
                a@.len() <= out@.len(),
                out@.to_set() == a@.to_set().union(b@.take(j as int).to_set()),
                a@.no_duplicates() ==> out@.no_duplicates(),
            decreases b@.len() - j,
        {
            let e = b[j];
            let ghost before = out@;
            let present = contains_reg(&out, e);
            if !present {
                out.push(e);
                proof {
                    assert(out@.take(a@.len() as int) =~= before.take(a@.len() as int));
                    assert(out@.to_set() =~= before.to_set().insert(e)) by {
                        vstd::seq_lib::lemma_seq_contains_after_push(before, e, e);
                        assert forall|x: Register| out@.to_set().contains(x) <==> before.to_set().insert(e).contains(x) by {
                            if x != e {
                                assert(out@.contains(x) ==> before.contains(x)) by {
                                    if out@.contains(x) {
                                        let k = choose|k: int| 0 <= k < out@.len() && out@[k] == x;
                                        assert(k < before.len());
                                        assert(before[k] == x);
                                    }
                                }
                                assert(before.contains(x) ==> out@.contains(x)) by {
                                    if before.contains(x) {
                                        let k = choose|k: int| 0 <= k < before.len() && before[k] == x;
                                        assert(out@[k] == x);
                                    }
                                }
                            } else {
                                assert(out@[out@.len() - 1] == e);
                            }
                        }
                    }
                    if a@.no_duplicates() {
                        assert(out@.no_duplicates()) by {
                            assert forall|p: int, q: int| 0 <= p < q < out@.len() implies out@[p] != out@[q] by {
                                if q == out@.len() - 1 {
                                    assert(out@[p] == before[p]);
                                }
                            }
                        }
                    }
                }
            }
            proof {
                assert(b@.take(j + 1) =~= b@.take(j as int).push(e));
                assert(b@.take(j + 1).to_set() =~= b@.take(j as int).to_set().insert(e)) by {
                    assert forall|x: Register| b@.take(j + 1).to_set().contains(x) <==> b@.take(j as int).to_set().insert(e).contains(x) by {
                        if b@.take(j + 1).contains(x) && x != e {
                            let k = choose|k: int| 0 <= k < j + 1 && #[trigger] b@.take(j + 1)[k] == x;
                            assert(k < j);
                            assert(b@.take(j as int)[k] == x);
                        }
                        if b@.take(j as int).contains(x) {
                            let k = choose|k: int| 0 <= k < j && #[trigger] b@.take(j as int)[k] == x;
                            assert(b@.take(j + 1)[k] == x);
                        }
                        if x == e {
                            assert(b@.take(j + 1)[j as int] == e);
                        }
                    }
                }
                if !present {
                    assert(out@[out@.len() - 1] == e);
                }
                assert(out@.contains(e));
                assert(out@.to_set().contains(e));
            }
            j += 1;
        }
        assert(b@.take(b@.len() as int) =~= b@);
        out
    }
}

/// Joins in the power-set lattice are unions: they do not depend on the order of the
/// operands, and an element joined with itself or with the empty set stays the same.
pub proof fn lemma_union_laws(a: Set<Register>, b: Set<Register>, c: Set<Register>)
    ensures
        a.union(b) == b.union(a),
        a.union(b).union(c) == a.union(b.union(c)),
        a.union(a) == a,
        a.union(Set::empty()) == a,
        a.subset_of(a.union(b)) && b.subset_of(a.union(b)),
{
    assert(a.union(b) =~= b.union(a));
    assert(a.union(b).union(c) =~= a.union(b.union(c)));
    assert(a.union(a) =~= a);
    assert(a.union(Set::empty()) =~= a);
}

/// A place in memory, named by the register that holds its address.
#[derive(Clone, Copy, PartialEq, Eq, Debug, Hash, Structural)]
pub struct MemoryPlace(pub Register);

/// The flat value of `s` at `i`, the least element where `s` has no value.
pub open spec fn at_or_bot(s: Seq<FlatElem>, i: int) -> FlatElem {
    if 0 <= i < s.len() {
        s[i]
    } else {
        FlatElem::Bot
    }
}

/// The lattice of maps from a fixed list of memory places to flat values, ordered place
/// by place; a map is the vector of its values in the order of the places.
pub struct MapLattice {
    pub map: Vec<MemoryPlace>,
    pub inner_lattice: FlatLattice,
}

impl MapLattice {
    pub fn new(map: Vec<MemoryPlace>, inner_lattice: FlatLattice) -> (l: Self)
        ensures
            l.map@ == map@,
    {
        Self { map, inner_lattice }
    }

    /// The position of `place` among the places, if it is one.
    pub fn index_of(&self, place: MemoryPlace) -> (r: Option<usize>)
        ensures
            match r {
                Some(i) => i < self.map@.len() && self.map@[i as int] == place && forall|j: int|
                    0 <= j < i ==> self.map@[j] != place,
                None => !self.map@.contains(place),
            },
    {
        let mut i: usize = 0;
        while i < self.map.len()
            invariant
                0 <= i <= self.map@.len(),
                forall|j: int| 0 <= j < i ==> self.map@[j] != place,
            decreases self.map@.len() - i,
        {
            if self.map[i] == place {
                return Some(i);
            }
            i += 1;
        }
        None
    }

    fn filled(&self, e: FlatElem) -> (r: Vec<FlatElem>)
        ensures
            r@.len() == self.map@.len(),
            forall|i: int| 0 <= i < r@.len() ==> r@[i] == e,
    {
        let mut out: Vec<FlatElem> = Vec::new();
        let mut i: usize = 0;
        while i < self.map.len()
            invariant
                0 <= i <= self.map@.len(),
                out@.len() == i,
                forall|k: int| 0 <= k < i ==> out@[k] == e,
            decreases self.map@.len() - i,
        {
            out.push(e);
            i += 1;
        }
        out
    }
}

impl Lattice<Vec<FlatElem>> for MapLattice {
    open spec fn is_bot(&self, r: Vec<FlatElem>) -> bool {
        &&& r@.len() == self.map@.len()
        &&& forall|i: int| 0 <= i < r@.len() ==> r@[i] == FlatElem::Bot
    }

    open spec fn is_lub(&self, a: Vec<FlatElem>, b: Vec<FlatElem>, r: Vec<FlatElem>) -> bool {
        &&& r@.len() == self.map@.len()
        &&& forall|i: int| 0 <= i < r@.len() ==> r@[i] == flat_lub(at_or_bot(a@, i), at_or_bot(b@, i))
    }

    fn top(&self) -> (r: Vec<FlatElem>)
        ensures
            r@.len() == self.map@.len(),
            forall|i: int| 0 <= i < r@.len() ==> r@[i] == FlatElem::Top,
    {
        self.filled(FlatElem::Top)
    }

    fn bot(&self) -> (r: Vec<FlatElem>)
        ensures
            r@.len() == self.map@.len(),
            forall|i: int| 0 <= i < r@.len() ==> r@[i] == FlatElem::Bot,
    {
        self.filled(FlatElem::Bot)
    }

    fn lub(&self, a: &Vec<FlatElem>, b: &Vec<FlatElem>) -> (r: Vec<FlatElem>)
        ensures
            r@.len() == self.map@.len(),
            forall|i: int| 0 <= i < r@.len() ==> r@[i] == flat_lub(at_or_bot(a@, i), at_or_bot(b@, i)),
    {
        let mut out: Vec<FlatElem> = Vec::new();
        let mut i: usize = 0;
        while i < self.map.len()
            invariant
                0 <= i <= self.map@.len(),
                out@.len() == i,
                forall|k: int| 0 <= k < i ==> out@[k] == flat_lub(at_or_bot(a@, k), at_or_bot(b@, k)),
            decreases self.map@.len() - i,
        {
            let x = if i < a.len() { a[i] } else { FlatElem::Bot };
            let y = if i < b.len() { b[i] } else { FlatElem::Bot };
            out.push(self.inner_lattice.lub(&x, &y));
            i += 1;
        }
        out
    }
}

/// The lattice of the states of a function: one element of an inner lattice for each
/// instruction of each block.
pub struct FunctionLattice<'a, L> {
    pub function: &'a Function,
    pub inner_lattice: &'a L,
}

impl<'a, L> FunctionLattice<'a, L> {
    pub fn new(function: &'a Function, lattice: &'a L) -> (l: Self)
        ensures
            *l.function == *function,
            *l.inner_lattice == *lattice,
    {
        Self { function, inner_lattice: lattice }
    }
}

/// Whether `state` holds one element for each instruction of each block of `f`.
pub open spec fn shaped<A>(f: Function, state: Seq<Vec<A>>) -> bool {
    &&& state.len() == f.blocks@.len()
    &&& forall|b: int| 0 <= b < state.len() ==> (#[trigger] state[b])@.len() == f.blocks@[b].instruction@.len()
}

impl<'a, L> FunctionLattice<'a, L> {
    fn filled<A>(&self, top: bool) -> (r: Vec<Vec<A>>) where L: Lattice<A>
        ensures
            shaped(*self.function, r@),
            !top ==> forall|b: int, i: int| 0 <= b < r@.len() && 0 <= i < r@[b]@.len()
                ==> self.inner_lattice.is_bot(#[trigger] r@[b]@[i]),
    {
        let mut out: Vec<Vec<A>> = Vec::new();
        let mut b: usize = 0;
        while b < self.function.blocks.len()
            invariant
                0 <= b <= self.function.blocks@.len(),
                out@.len() == b,
                forall|k: int| 0 <= k < b ==> (#[trigger] out@[k])@.len() == self.function.blocks@[k].instruction@.len(),
                !top ==> forall|k: int, i: int| 0 <= k < out@.len() && 0 <= i < out@[k]@.len()
                    ==> self.inner_lattice.is_bot(#[trigger] out@[k]@[i]),
            decreases self.function.blocks@.len() - b,
        {
            let mut row: Vec<A> = Vec::new();
            let n = self.function.blocks[b].instruction.len();
            let mut i: usize = 0;
            while i < n
                invariant
                    0 <= i <= n,
                    row@.len() == i,
                    !top ==> forall|j: int| 0 <= j < row@.len() ==> self.inner_lattice.is_bot(#[trigger] row@[j]),
                decreases n - i,
            {
                row.push(if top { self.inner_lattice.top() } else { self.inner_lattice.bot() });
                i += 1;
            }
            let ghost before = out@;
            out.push(row);
            proof {
                assert forall|k: int, i: int| 0 <= k < out@.len() && 0 <= i < out@[k]@.len() && !top
                    implies self.inner_lattice.is_bot(#[trigger] out@[k]@[i]) by {
                    if k < before.len() {
                        assert(out@[k] == before[k]);
                    }
                }
            }
            b += 1;
        }
        out
    }

    /// The state with the greatest element at each instruction.
    pub fn top_state<A>(&self) -> (r: Vec<Vec<A>>) where L: Lattice<A>
        ensures
            shaped(*self.function, r@),
    {
        self.filled(true)
    }

    /// The state with the least element at each instruction.
    pub fn bot_state<A>(&self) -> (r: Vec<Vec<A>>) where L: Lattice<A>
        ensures
            shaped(*self.function, r@),
            forall|b: int, i: int| 0 <= b < r@.len() && 0 <= i < r@[b]@.len()
                ==> self.inner_lattice.is_bot(#[trigger] r@[b]@[i]),
    {
        self.filled(false)
    }

    /// Joins two states instruction by instruction; where one of them has no element,
    /// the other is kept.
    pub fn lub_state<A: Clone>(&self, a: &Vec<Vec<A>>, b: &Vec<Vec<A>>) -> (r: Vec<Vec<A>>) where L: Lattice<A>
        requires
            shaped(*self.function, a@),
            shaped(*self.function, b@),
        ensures
            shaped(*self.function, r@),
    {
        let mut out: Vec<Vec<A>> = Vec::new();
        let mut k: usize = 0;
        while k < a.len()
            invariant
                0 <= k <= a@.len(),
                shaped(*self.function, a@),
                shaped(*self.function, b@),
                out@.len() == k,
                forall|j: int| 0 <= j < k ==> (#[trigger] out@[j])@.len() == a@[j]@.len(),
            decreases a@.len() - k,
        {
            let ra = &a[k];
            let rb = &b[k];
            assert(ra@.len() == rb@.len());
            let mut row: Vec<A> = Vec::new();
            let mut i: usize = 0;
            while i < ra.len()
                invariant
                    0 <= i <= ra@.len(),
                    ra@.len() == rb@.len(),
                    row@.len() == i,
                decreases ra@.len() - i,
            {
                row.push(self.inner_lattice.lub(&ra[i], &rb[i]));
                i += 1;
            }
            out.push(row);
            k += 1;
        }
        out
    }
}

} // verus!
