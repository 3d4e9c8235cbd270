use vstd::prelude::*;

use crate::middleend::ir::Register;

verus! {

/// What a pointer may point to: the memory of an allocation, or memory not known here.
#[derive(Clone, Copy, PartialEq, Eq, Debug, Hash, Structural)]
pub enum Cell {
    Alloc(Register),
    Volatile,
}

/// A variable of the constraints: a register, or the memory at the address a register holds.
#[derive(Clone, Copy, PartialEq, Eq, Debug, Hash, Structural)]
pub enum Place {
    Register(Register),
    Memory(Register),
}

/// Sum over the sets of a solution of the tokens each still lacks, out of `m`.
pub open spec fn slack(sol: Seq<Vec<Cell>>, m: int) -> int
    decreases sol.len(),
{
    if sol.len() == 0 {
        0
    } else {
        slack(sol.drop_last(), m) + (m - sol.last()@.len())
    }
}

proof fn lemma_slack_update(sol: Seq<Vec<Cell>>, j: int, v: Vec<Cell>, m: int)
    requires
        0 <= j < sol.len(),
    ensures
        slack(sol.update(j, v), m) == slack(sol, m) - v@.len() + sol[j]@.len(),
    decreases sol.len(),
{
    if j < sol.len() - 1 {
        assert(sol.update(j, v).drop_last() =~= sol.drop_last().update(j, v));
        lemma_slack_update(sol.drop_last(), j, v, m);
    } else {
        assert(sol.update(j, v).drop_last() =~= sol.drop_last());
    }
}

proof fn lemma_slack_nonneg(sol: Seq<Vec<Cell>>, m: int)
    requires
        forall|j: int| 0 <= j < sol.len() ==> (#[trigger] sol[j])@.len() <= m,
    ensures
        slack(sol, m) >= 0,
    decreases sol.len(),
{
    if sol.len() > 0 {
        lemma_slack_nonneg(sol.drop_last(), m);
    }
}

proof fn lemma_slack_push(sol: Seq<Vec<Cell>>, v: Vec<Cell>, m: int)
    ensures
        slack(sol.push(v), m) == slack(sol, m) + m - v@.len(),
{
    assert(sol.push(v).drop_last() =~= sol);
}

/// A sequence without repetitions whose elements all occur in another sequence without
/// repetitions is no longer than it.
proof fn lemma_no_dup_subseq_len<T>(s: Seq<T>, u: Seq<T>)
    requires
        s.no_duplicates(),
        u.no_duplicates(),
        forall|i: int| 0 <= i < s.len() ==> u.contains(#[trigger] s[i]),
    ensures
        s.len() <= u.len(),
{
    s.unique_seq_to_set();
    u.unique_seq_to_set();
    vstd::seq_lib::seq_to_set_is_finite(u);
    assert(s.to_set().subset_of(u.to_set())) by {
        assert forall|x: T| s.to_set().contains(x) implies u.to_set().contains(x) by {
            let i = choose|i: int| 0 <= i < s.len() && s[i] == x;
            assert(u.contains(s[i]));
        }
    }
    vstd::set_lib::lemma_len_subset(s.to_set(), u.to_set());
}

/// Whether `t` occurs in `v`.
fn contains_cell(v: &Vec<Cell>, t: Cell) -> (r: bool)
    ensures
        r == v@.contains(t),
{
    let mut k: usize = 0;
    while k < v.len()
        invariant
            0 <= k <= v@.len(),
            forall|m: int| 0 <= m < k ==> v@[m] != t,
        decreases v@.len() - k,
    {
        if v[k] == t {
            return true;
        }
        k += 1;
    }
    false
}

/// Whether `p` occurs in `v`.
fn contains_place(v: &Vec<Place>, p: Place) -> (r: bool)
    ensures
        r == v@.contains(p),
{
    let mut k: usize = 0;
    while k < v.len()
        invariant
            0 <= k <= v@.len(),
            forall|m: int| 0 <= m < k ==> v@[m] != p,
        decreases v@.len() - k,
    {
        if v[k] == p {
            return true;
        }
        k += 1;
    }
    false
}

/// A copy of a list of variables.
fn copy_places(v: &Vec<Place>) -> (r: Vec<Place>)
    ensures
        r@ == v@,
{
    let mut out: Vec<Place> = Vec::new();
    let mut k: usize = 0;
    while k < v.len()
        invariant
            0 <= k <= v@.len(),
            out@ == v@.take(k as int),
        decreases v@.len() - k,
    {
        out.push(v[k]);
        k += 1;
    }
    assert(out@ =~= v@);
    out
}

/// A copy of a list of tokens.
fn copy_cells(v: &Vec<Cell>) -> (r: Vec<Cell>)
    ensures
        r@ == v@,
{
    let mut out: Vec<Cell> = Vec::new();
    let mut k: usize = 0;
    while k < v.len()
        invariant
            0 <= k <= v@.len(),
            out@ == v@.take(k as int),
        decreases v@.len() - k,
    {
        out.push(v[k]);
        k += 1;
    }
    assert(out@ =~= v@);
    out
}

/// A solver of inclusion constraints between sets of tokens: a token is in a variable,
/// one variable is included in another, and a token in a variable implies an inclusion.
/// Solutions, successors and conditions are kept by the index of their variable.
pub struct CubicSolver {
    pub tokens: Vec<Cell>,
    pub places: Vec<Place>,
    pub solution: Vec<Vec<Cell>>,
    pub succesor: Vec<Vec<Place>>,
    pub conditions: Vec<(Place, Cell, Place, Place)>,
    pub worklist: Vec<(Cell, Place)>,
}

impl CubicSolver {
    /// The tokens and variables met are listed once each; the sets of each variable
    /// hold known tokens and variables, once each; the pending work is about them.
    pub open spec fn wf(&self) -> bool {
        &&& self.tokens@.no_duplicates()
        &&& self.places@.no_duplicates()
        &&& self.solution@.len() == self.places@.len()
        &&& self.succesor@.len() == self.places@.len()
        &&& forall|j: int| 0 <= j < self.solution@.len() ==> (#[trigger] self.solution@[j])@.no_duplicates()
        &&& forall|j: int, k: int| 0 <= j < self.solution@.len() && 0 <= k < self.solution@[j]@.len()
            ==> self.tokens@.contains(#[trigger] self.solution@[j]@[k])
        &&& forall|j: int| 0 <= j < self.solution@.len() ==> (#[trigger] self.solution@[j])@.len() <= self.tokens@.len()
        &&& forall|j: int, k: int| 0 <= j < self.succesor@.len() && 0 <= k < self.succesor@[j]@.len()
            ==> self.places@.contains(#[trigger] self.succesor@[j]@[k])
        &&& forall|i: int| 0 <= i < self.conditions@.len() ==> {
            let c = #[trigger] self.conditions@[i];
            self.places@.contains(c.0) && self.tokens@.contains(c.1) && self.places@.contains(c.2)
                && self.places@.contains(c.3)
        }
        &&& forall|i: int| 0 <= i < self.worklist@.len() ==> {
            let w = #[trigger] self.worklist@[i];
            self.tokens@.contains(w.0) && self.places@.contains(w.1)
        }
    }

    /// Whether the token `t` is in the set of the variable `p`.
    pub open spec fn holds(&self, t: Cell, p: Place) -> bool {
        exists|j: int| 0 <= j < self.places@.len() && self.places@[j] == p && (#[trigger] self.solution@[j])@.contains(t)
    }

    /// Whether `q` is recorded as a successor of `p`.
    pub open spec fn edge(&self, p: Place, q: Place) -> bool {
        exists|j: int| 0 <= j < self.places@.len() && self.places@[j] == p && (#[trigger] self.succesor@[j])@.contains(q)
    }

    /// Whether the token `t` in the variable `p` still waits on the worklist.
    pub open spec fn pending(&self, t: Cell, p: Place) -> bool {
        self.worklist@.contains((t, p))
    }

    /// Whether the token `t` in `p` has been passed on: it is in the set of every
    /// successor of `p`, and every condition on `t` in `p` has made its inclusion.
    pub open spec fn passed_on(&self, t: Cell, p: Place) -> bool {
        &&& forall|q: Place| #[trigger] self.edge(p, q) ==> self.holds(t, q)
        &&& forall|i: int| 0 <= i < self.conditions@.len() && (#[trigger] self.conditions@[i]).0 == p
            && self.conditions@[i].1 == t ==> self.conditions@[i].2 == self.conditions@[i].3 || self.edge(
            self.conditions@[i].2,
            self.conditions@[i].3,
        )
    }

    /// Every item on the worklist is a token that is in its variable's set.
    pub open spec fn pending_held(&self) -> bool {
        forall|i: int| 0 <= i < self.worklist@.len() ==> {
            let w = #[trigger] self.worklist@[i];
            self.holds(w.0, w.1)
        }
    }

    /// Whether the token `s` is in the set of some variable.
    pub open spec fn placed_somewhere(&self, s: Cell) -> bool {
        exists|p: Place| #[trigger] self.holds(s, p)
    }

    /// Every token in a variable that no longer waits on the worklist, but perhaps the
    /// one `ex` being passed on, has been passed on.
    pub open spec fn closed_but(&self, ex: Option<(Cell, Place)>) -> bool {
        forall|t: Cell, p: Place| #[trigger] self.holds(t, p) && !self.pending(t, p) && ex != Some((t, p))
            ==> self.passed_on(t, p)
    }

    /// Every token in a variable that no longer waits on the worklist has been passed on.
    pub open spec fn closed(&self) -> bool {
        self.closed_but(None)
    }

    /// The measure of the work left: each new token in a set lowers it.
    pub open spec fn measure(&self) -> int {
        slack(self.solution@, self.tokens@.len() as int)
    }

    /// A solver with no constraints.
    pub fn new() -> (s: Self)
        ensures
            s.wf(),
            s.tokens@.len() == 0,
            s.places@.len() == 0,
            s.solution@.len() == 0,
            s.succesor@.len() == 0,
            s.worklist@.len() == 0,
            s.conditions@.len() == 0,
            s.closed(),
            s.pending_held(),
    {
        Self {
            tokens: Vec::new(),
            places: Vec::new(),
            solution: Vec::new(),
            succesor: Vec::new(),
            conditions: Vec::new(),
            worklist: Vec::new(),
        }
    }

    /// The index of the variable `p`, if it was met.
    fn find_place(&self, p: Place) -> (r: Option<usize>)
        ensures
            match r {
                Some(j) => j < self.places@.len() && self.places@[j as int] == p,
                None => !self.places@.contains(p),
            },
    {
        let mut j: usize = 0;
        while j < self.places.len()
            invariant
                0 <= j <= self.places@.len(),
                forall|k: int| 0 <= k < j ==> self.places@[k] != p,
            decreases self.places@.len() - j,
        {
            if self.places[j] == p {
                return Some(j);
            }
            j += 1;
        }
        None
    }

    /// The index of the variable `p`, listing it with empty sets when it is new.
    fn place_index(&mut self, p: Place) -> (r: usize)
        requires
            old(self).wf(),
        ensures
            final(self).wf(),
            r < final(self).places@.len(),
            final(self).places@[r as int] == p,
            old(self).places@.contains(p) ==> *final(self) == *old(self),
            final(self).tokens == old(self).tokens,
            final(self).worklist == old(self).worklist,
            final(self).conditions == old(self).conditions,
            final(self).places@.len() >= old(self).places@.len(),
            final(self).places@.take(old(self).places@.len() as int) == old(self).places@,
            final(self).solution@.take(old(self).places@.len() as int) == old(self).solution@,
            final(self).succesor@.take(old(self).places@.len() as int) == old(self).succesor@,
            forall|jj: int| 0 <= jj < old(self).places@.len() ==> final(self).places@[jj] == old(self).places@[jj]
                && #[trigger] final(self).solution@[jj] == old(self).solution@[jj] && final(self).succesor@[jj]
                == old(self).succesor@[jj],
            forall|j: int| old(self).places@.len() <= j < final(self).places@.len() ==> (#[trigger] final(self).solution@[j])@.len() == 0
                && final(self).succesor@[j]@.len() == 0,
            final(self).measure() >= old(self).measure(),
    {
        match self.find_place(p) {
            Some(j) => j,
            None => {
                let ghost o = *self;
                self.places.push(p);
                self.solution.push(Vec::new());
                self.succesor.push(Vec::new());
                proof {
                    assert(self.places@.take(o.places@.len() as int) =~= o.places@);
                    assert(self.solution@.take(o.places@.len() as int) =~= o.solution@);
                    assert(self.succesor@.take(o.places@.len() as int) =~= o.succesor@);
                    lemma_slack_push(o.solution@, self.solution@.last(), o.tokens@.len() as int);
                    assert(self.solution@ =~= o.solution@.push(self.solution@.last()));
                    assert forall|j: int, k: int| 0 <= j < self.succesor@.len() && 0 <= k < self.succesor@[j]@.len()
                        implies self.places@.contains(#[trigger] self.succesor@[j]@[k]) by {
                        assert(o.places@.contains(o.succesor@[j]@[k]));
                        let m = choose|m: int| 0 <= m < o.places@.len() && o.places@[m] == o.succesor@[j]@[k];
                        assert(self.places@[m] == o.places@[m]);
                    }
                    assert forall|i: int| 0 <= i < self.conditions@.len() implies ({
                        let c = #[trigger] self.conditions@[i];
                        self.places@.contains(c.0) && self.tokens@.contains(c.1) && self.places@.contains(c.2)
                            && self.places@.contains(c.3)
                    }) by {
                        let c = self.conditions@[i];
                        assert(o.places@.contains(c.0));
                        assert(o.places@.contains(c.2));
                        assert(o.places@.contains(c.3));
                        let m0 = choose|m: int| 0 <= m < o.places@.len() && o.places@[m] == c.0;
                        let m2 = choose|m: int| 0 <= m < o.places@.len() && o.places@[m] == c.2;
                        let m3 = choose|m: int| 0 <= m < o.places@.len() && o.places@[m] == c.3;
                        assert(self.places@[m0] == c.0);
                        assert(self.places@[m2] == c.2);
                        assert(self.places@[m3] == c.3);
                    }
                    assert forall|i: int| 0 <= i < self.worklist@.len() implies ({
                        let w = #[trigger] self.worklist@[i];
                        self.tokens@.contains(w.0) && self.places@.contains(w.1)
                    }) by {
                        let w = self.worklist@[i];
                        assert(o.places@.contains(w.1));
                        let m = choose|m: int| 0 <= m < o.places@.len() && o.places@[m] == w.1;
                        assert(self.places@[m] == w.1);
                    }
                }
                self.places.len() - 1
            },
        }
    }

    /// Lists the token `t` when it is new.
    fn register_token(&mut self, t: Cell)
        requires
            old(self).wf(),
        ensures
            final(self).wf(),
            final(self).tokens@.contains(t),
            old(self).tokens@.contains(t) ==> *final(self) == *old(self),
            final(self).places == old(self).places,
            final(self).solution == old(self).solution,
            final(self).succesor == old(self).succesor,
            final(self).worklist == old(self).worklist,
            final(self).conditions == old(self).conditions,
            forall|x: Cell| old(self).tokens@.contains(x) ==> final(self).tokens@.contains(x),
    {
        let mut k: usize = 0;
        while k < self.tokens.len()
            invariant
                0 <= k <= self.tokens@.len(),
                *self == *old(self),
                old(self).wf(),
                forall|m: int| 0 <= m < k ==> self.tokens@[m] != t,
            decreases self.tokens@.len() - k,
        {
            if self.tokens[k] == t {
                return;
            }
            k += 1;
        }
        let ghost o = *self;
        self.tokens.push(t);
        proof {
            assert(self.tokens@.no_duplicates()) by {
                assert forall|p: int, q: int| 0 <= p < self.tokens@.len() && 0 <= q < self.tokens@.len() && p != q
                    implies self.tokens@[p] != self.tokens@[q] by {
                    if p == self.tokens@.len() - 1 {
                        assert(o.tokens@[q] != t);
                    } else if q == self.tokens@.len() - 1 {
                        assert(o.tokens@[p] != t);
                    }
                }
            }
            assert forall|j: int, k2: int| 0 <= j < self.solution@.len() && 0 <= k2 < self.solution@[j]@.len()
                implies self.tokens@.contains(#[trigger] self.solution@[j]@[k2]) by {
                let x = o.solution@[j]@[k2];
                assert(o.tokens@.contains(x));
                let m = choose|m: int| 0 <= m < o.tokens@.len() && o.tokens@[m] == x;
                assert(self.tokens@[m] == x);
            }
            assert forall|i: int| 0 <= i < self.conditions@.len() implies ({
                let c = #[trigger] self.conditions@[i];
                self.places@.contains(c.0) && self.tokens@.contains(c.1) && self.places@.contains(c.2)
                    && self.places@.contains(c.3)
            }) by {
                let c = o.conditions@[i];
                assert(o.tokens@.contains(c.1));
                let m = choose|m: int| 0 <= m < o.tokens@.len() && o.tokens@[m] == c.1;
                assert(self.tokens@[m] == c.1);
            }
            assert forall|i: int| 0 <= i < self.worklist@.len() implies ({
                let w = #[trigger] self.worklist@[i];
                self.tokens@.contains(w.0) && self.places@.contains(w.1)
            }) by {
                let w = o.worklist@[i];
                assert(o.tokens@.contains(w.0));
                let m = choose|m: int| 0 <= m < o.tokens@.len() && o.tokens@[m] == w.0;
                assert(self.tokens@[m] == w.0);
            }
            assert forall|x: Cell| o.tokens@.contains(x) implies self.tokens@.contains(x) by {
                let m = choose|m: int| 0 <= m < o.tokens@.len() && o.tokens@[m] == x;
                assert(self.tokens@[m] == x);
            }
            assert(self.tokens@[self.tokens@.len() - 1] == t);
        }
    }

    /// Adds the token `t` to the set of `v`; a new token is also put on the worklist.
    pub fn add_token(&mut self, t: Cell, v: Place)
        requires
            old(self).wf(),
        ensures
            final(self).wf(),
            final(self).holds(t, v),
            forall|s: Cell, p: Place| old(self).holds(s, p) ==> final(self).holds(s, p),
            forall|p: Place, q: Place| old(self).edge(p, q) ==> final(self).edge(p, q),
            final(self).conditions == old(self).conditions,
            forall|s: Cell, p: Place| #[trigger] final(self).holds(s, p) ==> old(self).holds(s, p) || (s == t && p == v),
            forall|p: Place, q: Place| #[trigger] final(self).edge(p, q) ==> old(self).edge(p, q),
            !old(self).holds(t, v) ==> final(self).pending(t, v),
            forall|i: int| 0 <= i < old(self).worklist@.len() ==> final(self).worklist@.contains(#[trigger] old(self).worklist@[i]),
            forall|ex: Option<(Cell, Place)>| #[trigger] old(self).closed_but(ex) ==> final(self).closed_but(ex),
            old(self).holds(t, v) ==> *final(self) == *old(self),
            old(self).pending_held() ==> final(self).pending_held(),
            (old(self).tokens@.contains(t) && old(self).places@.contains(v)) ==> {
                &&& final(self).tokens == old(self).tokens
                &&& final(self).places == old(self).places
                &&& final(self).succesor == old(self).succesor
                &&& ((final(self).measure() < old(self).measure() && final(self).worklist@ == old(self).worklist@.push((t, v)))
                    || (final(self).measure() == old(self).measure() && final(self).worklist == old(self).worklist))
            },
    {
        proof {
            self.lemma_measure_nonneg();
        }
        proof {
            if old(self).holds(t, v) {
                let jj = choose|jj: int| 0 <= jj < old(self).places@.len() && old(self).places@[jj] == v && (#[trigger] old(self).solution@[jj])@.contains(t);
                let kk = choose|kk: int| 0 <= kk < old(self).solution@[jj]@.len() && old(self).solution@[jj]@[kk] == t;
                assert(old(self).tokens@.contains(old(self).solution@[jj]@[kk]));
                assert(old(self).places@.contains(v));
            }
        }
        self.register_token(t);
        let j = self.place_index(v);
        proof {
            assert forall|s: Cell, p: Place| old(self).holds(s, p) implies self.holds(s, p) by {
                let jj = choose|jj: int| 0 <= jj < old(self).places@.len() && old(self).places@[jj] == p && (#[trigger] old(self).solution@[jj])@.contains(s);
                assert(self.solution@[jj] == old(self).solution@[jj]);
                assert(self.places@[jj] == p);
                assert(self.solution@[jj]@.contains(s));
            }
            assert forall|p: Place, q: Place| old(self).edge(p, q) implies self.edge(p, q) by {
                let jj = choose|jj: int| 0 <= jj < old(self).places@.len() && old(self).places@[jj] == p && (#[trigger] old(self).succesor@[jj])@.contains(q);
                assert(self.succesor@[jj] == old(self).succesor@[jj]);
                assert(self.places@[jj] == p);
                assert(self.succesor@[jj]@.contains(q));
            }
        }
        proof {
            assert forall|jj: int| old(self).places@.len() <= jj < self.places@.len() implies (#[trigger] self.succesor@[jj])@.len() == 0 by {
                assert(self.solution@[jj]@.len() == 0);
            }
            assert forall|jj: int| 0 <= jj < old(self).places@.len() implies #[trigger] self.succesor@[jj] == old(self).succesor@[jj] by {
                assert(self.solution@[jj] == old(self).solution@[jj]);
            }
            Self::lemma_extend_keeps(*old(self), *self);
        }
        let ghost o0 = *self;
        let present = contains_cell(&self.solution[j], t);
        proof {
            if present {
                assert(o0.holds(t, v)) by {
                    assert(o0.solution@[j as int]@.contains(t));
                }
            }
            if !present {
                assert(!o0.holds(t, v)) by {
                    if o0.holds(t, v) {
                        let jj = choose|jj: int| 0 <= jj < o0.places@.len() && o0.places@[jj] == v && (#[trigger] o0.solution@[jj])@.contains(t);
                        assert(o0.places@.no_duplicates());
                        assert(jj == j);
                    }
                }
            }
        }
        if !present {
            let ghost o = *self;
            let mut set = Vec::new();
            std::mem::swap(&mut set, &mut self.solution[j]);
            set.push(t);
            self.solution.set(j, set);
            self.worklist.push((t, v));
            proof {
                let m = o.tokens@.len() as int;
                lemma_slack_update(o.solution@, j as int, self.solution@[j as int], m);
                assert(self.solution@ =~= o.solution@.update(j as int, self.solution@[j as int]));
                assert(self.solution@[j as int]@ =~= o.solution@[j as int]@.push(t));
                assert(self.solution@[j as int]@.no_duplicates());
                assert forall|k2: int| 0 <= k2 < self.solution@[j as int]@.len() implies self.tokens@.contains(#[trigger] self.solution@[j as int]@[k2]) by {
                    if k2 < o.solution@[j as int]@.len() {
                        assert(o.tokens@.contains(o.solution@[j as int]@[k2]));
                    }
                }
                lemma_no_dup_subseq_len(self.solution@[j as int]@, self.tokens@);
                assert forall|s: Cell, p: Place| o.holds(s, p) implies self.holds(s, p) by {
                    let jj = choose|jj: int| 0 <= jj < o.places@.len() && o.places@[jj] == p && (#[trigger] o.solution@[jj])@.contains(s);
                    let kk = choose|kk: int| 0 <= kk < o.solution@[jj]@.len() && o.solution@[jj]@[kk] == s;
                    if jj == j {
                        assert(self.solution@[jj]@[kk] == s);
                    } else {
                        assert(self.solution@[jj] == o.solution@[jj]);
                        assert(self.solution@[jj]@[kk] == s);
                    }
                    assert(self.solution@[jj]@.contains(s));
                }
                assert(self.solution@[j as int]@[self.solution@[j as int]@.len() - 1] == t);
                assert forall|i: int| 0 <= i < self.worklist@.len() implies ({
                    let w = #[trigger] self.worklist@[i];
                    self.tokens@.contains(w.0) && self.places@.contains(w.1)
                }) by {
                    if i == self.worklist@.len() - 1 {
                        assert(self.places@[j as int] == v);
                    } else {
                        assert(self.worklist@[i] == o.worklist@[i]);
                    }
                }
                assert forall|jj: int, k2: int| 0 <= jj < self.solution@.len() && 0 <= k2 < self.solution@[jj]@.len()
                    implies self.tokens@.contains(#[trigger] self.solution@[jj]@[k2]) by {
                    if jj != j {
                        assert(self.solution@[jj] == o.solution@[jj]);
                    }
                }
                assert(self.holds(t, v)) by {
                    assert(self.solution@[j as int]@.contains(t));
                }
                assert forall|s: Cell, p: Place| #[trigger] self.holds(s, p) implies o.holds(s, p) || (s == t && p == v) by {
                    let jj = choose|jj: int| 0 <= jj < self.places@.len() && self.places@[jj] == p && (#[trigger] self.solution@[jj])@.contains(s);
                    let kk = choose|kk: int| 0 <= kk < self.solution@[jj]@.len() && self.solution@[jj]@[kk] == s;
                    if jj == j {
                        if kk < o.solution@[jj]@.len() {
                            assert(o.solution@[jj]@[kk] == s);
                            assert(o.solution@[jj]@.contains(s));
                        }
                    } else {
                        assert(self.solution@[jj] == o.solution@[jj]);
                        assert(o.solution@[jj]@.contains(s));
                    }
                }
                assert forall|p: Place, q: Place| #[trigger] self.edge(p, q) implies o.edge(p, q) by {
                    let jj = choose|jj: int| 0 <= jj < self.places@.len() && self.places@[jj] == p && (#[trigger] self.succesor@[jj])@.contains(q);
                    assert(o.succesor@[jj]@.contains(q));
                }
                assert(self.pending(t, v)) by {
                    assert(self.worklist@[self.worklist@.len() - 1] == (t, v));
                }
                assert forall|i: int| 0 <= i < old(self).worklist@.len() implies self.worklist@.contains(#[trigger] old(self).worklist@[i]) by {
                    assert(self.worklist@[i] == old(self).worklist@[i]);
                }
            }
        }

        proof {
            assert(self.solution@[j as int]@.contains(t));
            assert forall|p: Place, q: Place| old(self).edge(p, q) implies self.edge(p, q) by {
                assert(o0.edge(p, q));
                let jj = choose|jj: int| 0 <= jj < o0.places@.len() && o0.places@[jj] == p && (#[trigger] o0.succesor@[jj])@.contains(q);
                assert(self.succesor@[jj] == o0.succesor@[jj]);
                assert(self.places@[jj] == p);
            }
            assert forall|ex: Option<(Cell, Place)>| #[trigger] old(self).closed_but(ex) implies self.closed_but(ex) by {
                Self::lemma_closed_grow(*old(self), *self, ex);
            }
            if old(self).pending_held() {
                assert forall|i: int| 0 <= i < self.worklist@.len() implies ({
                    let w = #[trigger] self.worklist@[i];
                    self.holds(w.0, w.1)
                }) by {
                    if i < old(self).worklist@.len() {
                        assert(self.worklist@[i] == old(self).worklist@[i]);
                        let w = old(self).worklist@[i];
                        assert(old(self).holds(w.0, w.1));
                    } else {
                        assert(self.worklist@[i] == (t, v));
                    }
                }
            }
        }
    }

    /// Whether the variables `x` and `y` were both met.
    pub open spec fn known(&self, x: Place, y: Place) -> bool {
        self.places@.contains(x) && self.places@.contains(y)
    }

    /// Records that the set of `x` is included in that of `y`, and, when the inclusion is
    /// new, adds the tokens of `x` to `y` at once.
    pub fn add_edge(&mut self, x: Place, y: Place)
        requires
            old(self).wf(),
        ensures
            final(self).wf(),
            x != y ==> final(self).edge(x, y),
            x != y && !old(self).edge(x, y) ==> forall|t: Cell| old(self).holds(t, x) ==> final(self).holds(t, y),
            forall|s: Cell, p: Place| old(self).holds(s, p) ==> final(self).holds(s, p),
            x == y || old(self).edge(x, y) ==> *final(self) == *old(self),
            forall|s: Cell, p: Place| #[trigger] final(self).holds(s, p) ==> old(self).holds(s, p) || (p == y && old(self).holds(s, x)),
            old(self).pending_held() ==> final(self).pending_held(),
            forall|p: Place, q: Place| old(self).edge(p, q) ==> final(self).edge(p, q),
            final(self).conditions == old(self).conditions,
            old(self).known(x, y) ==> {
                &&& final(self).tokens == old(self).tokens
                &&& final(self).places == old(self).places
                &&& (final(self).measure() < old(self).measure() || (final(self).measure() == old(self).measure()
                    && final(self).worklist == old(self).worklist))
            },
            forall|i: int| 0 <= i < old(self).worklist@.len() ==> final(self).worklist@.contains(#[trigger] old(self).worklist@[i]),
            forall|s: Cell, p: Place| #[trigger] final(self).holds(s, p) ==> old(self).holds(s, p) || final(self).pending(s, p),
            forall|p: Place, q: Place| #[trigger] final(self).edge(p, q) ==> old(self).edge(p, q) || (p == x && q == y && x != y),
            forall|ex: Option<(Cell, Place)>| #[trigger] old(self).closed_but(ex) ==> final(self).closed_but(ex),
    {
        if x == y {
            return;
        }
        let jx = self.place_index(x);
        let ghost m1 = *self;
        proof {
            assert forall|jj: int| old(self).places@.len() <= jj < m1.places@.len() implies (#[trigger] m1.succesor@[jj])@.len() == 0 by {
                assert(m1.solution@[jj]@.len() == 0);
            }
            assert forall|jj: int| 0 <= jj < old(self).places@.len() implies #[trigger] m1.succesor@[jj] == old(self).succesor@[jj] by {
                assert(m1.solution@[jj] == old(self).solution@[jj]);
            }
            Self::lemma_extend_keeps(*old(self), m1);
        }
        let jy = self.place_index(y);
        let ghost o1 = *self;
        proof {
            assert forall|jj: int| m1.places@.len() <= jj < o1.places@.len() implies (#[trigger] o1.succesor@[jj])@.len() == 0 by {
                assert(o1.solution@[jj]@.len() == 0);
            }
            assert forall|jj: int| 0 <= jj < m1.places@.len() implies #[trigger] o1.succesor@[jj] == m1.succesor@[jj] by {
                assert(o1.solution@[jj] == m1.solution@[jj]);
            }
            Self::lemma_extend_keeps(m1, o1);
        }
        proof {
            assert forall|s: Cell, p: Place| old(self).holds(s, p) implies self.holds(s, p) by {
                let jj = choose|jj: int| 0 <= jj < old(self).places@.len() && old(self).places@[jj] == p && (#[trigger] old(self).solution@[jj])@.contains(s);
                if jj < o1.places@.len() {
                }
                assert(self.places@[jj] == p);
                assert(self.solution@[jj]@.contains(s));
            }
            assert forall|p: Place, q: Place| old(self).edge(p, q) implies self.edge(p, q) by {
                let jj = choose|jj: int| 0 <= jj < old(self).places@.len() && old(self).places@[jj] == p && (#[trigger] old(self).succesor@[jj])@.contains(q);
                assert(self.places@[jj] == p);
                assert(self.succesor@[jj]@.contains(q));
            }
            assert forall|t: Cell| old(self).holds(t, x) implies self.solution@[jx as int]@.contains(t) by {
                let jj = choose|jj: int| 0 <= jj < old(self).places@.len() && old(self).places@[jj] == x && (#[trigger] old(self).solution@[jj])@.contains(t);
                assert(self.places@[jj] == x);
                assert(self.places@.no_duplicates());
                assert(jj == jx);
            }
        }
        let already = contains_place(&self.succesor[jx], y);
        proof {
            if old(self).edge(x, y) {
                let jj = choose|jj: int| 0 <= jj < old(self).places@.len() && old(self).places@[jj] == x && (#[trigger] old(self).succesor@[jj])@.contains(y);
                assert(old(self).places@.contains(y));
                assert(old(self).places@.contains(x));
                assert(self.places@.no_duplicates());
                assert(jj == jx);
            }
        }
        if already {
            proof {
                assert(self.succesor@[jx as int]@.contains(y));
                assert(self.edge(x, y));
                assert forall|ex: Option<(Cell, Place)>| #[trigger] old(self).closed_but(ex) implies self.closed_but(ex) by {
                    Self::lemma_closed_grow(*old(self), *self, ex);
                }
                if old(self).pending_held() {
                    assert forall|i: int| 0 <= i < self.worklist@.len() implies ({
                        let w = #[trigger] self.worklist@[i];
                        self.holds(w.0, w.1)
                    }) by {
                        assert(self.worklist@[i] == old(self).worklist@[i]);
                        let w = old(self).worklist@[i];
                        assert(old(self).holds(w.0, w.1));
                    }
                }
                if !old(self).known(x, y) {
                    assert(!old(self).edge(x, y));
                }
            }
            return;
        }
        if !already {
            let mut list = Vec::new();
            std::mem::swap(&mut list, &mut self.succesor[jx]);
            list.push(y);
            self.succesor.set(jx, list);
            proof {
                assert(self.succesor@ =~= o1.succesor@.update(jx as int, self.succesor@[jx as int]));
                assert(self.succesor@[jx as int]@ =~= o1.succesor@[jx as int]@.push(y));
                assert forall|j: int, k2: int| 0 <= j < self.succesor@.len() && 0 <= k2 < self.succesor@[j]@.len()
                    implies self.places@.contains(#[trigger] self.succesor@[j]@[k2]) by {
                    if j == jx && k2 == self.succesor@[j]@.len() - 1 {
                        assert(self.places@[jy as int] == y);
                    } else if j == jx {
                        assert(self.succesor@[j]@[k2] == o1.succesor@[j]@[k2]);
                    } else {
                        assert(self.succesor@[j] == o1.succesor@[j]);
                    }
                }
                assert forall|p: Place, q: Place| o1.edge(p, q) implies self.edge(p, q) by {
                    let jj = choose|jj: int| 0 <= jj < o1.places@.len() && o1.places@[jj] == p && (#[trigger] o1.succesor@[jj])@.contains(q);
                    let kk = choose|kk: int| 0 <= kk < o1.succesor@[jj]@.len() && o1.succesor@[jj]@[kk] == q;
                    if jj == jx {
                        assert(self.succesor@[jj]@[kk] == q);
                    } else {
                        assert(self.succesor@[jj] == o1.succesor@[jj]);
                        assert(self.succesor@[jj]@[kk] == q);
                    }
                    assert(self.succesor@[jj]@.contains(q));
                }
                assert(self.succesor@[jx as int]@[self.succesor@[jx as int]@.len() - 1] == y);
                assert(self.succesor@[jx as int]@.contains(y));
                assert forall|p: Place, q: Place| #[trigger] self.edge(p, q) implies o1.edge(p, q) || (p == x && q == y) by {
                    let jj = choose|jj: int| 0 <= jj < self.places@.len() && self.places@[jj] == p && (#[trigger] self.succesor@[jj])@.contains(q);
                    let kk = choose|kk: int| 0 <= kk < self.succesor@[jj]@.len() && self.succesor@[jj]@[kk] == q;
                    if jj == jx {
                        if kk < o1.succesor@[jj]@.len() {
                            assert(o1.succesor@[jj]@[kk] == q);
                            assert(o1.succesor@[jj]@.contains(q));
                        }
                    } else {
                        assert(self.succesor@[jj] == o1.succesor@[jj]);
                        assert(o1.succesor@[jj]@.contains(q));
                    }
                }
            }
        }
        proof {
            assert(self.succesor@[jx as int]@.contains(y));
            assert(self.edge(x, y));
            assert(forall|p: Place, q: Place| #[trigger] self.edge(p, q) ==> o1.edge(p, q) || (p == x && q == y));
            assert(self.solution == o1.solution && self.places == o1.places);
        }
        let toks = copy_cells(&self.solution[jx]);
        let ghost o2 = *self;
        proof {
            if old(self).pending_held() {
                assert forall|i: int| 0 <= i < o2.worklist@.len() implies ({
                    let w = #[trigger] o2.worklist@[i];
                    o2.holds(w.0, w.1)
                }) by {
                    assert(o2.worklist@[i] == old(self).worklist@[i]);
                    let w = old(self).worklist@[i];
                    assert(old(self).holds(w.0, w.1));
                    assert(o1.holds(w.0, w.1));
                }
            }
        }
        let mut i: usize = 0;
        while i < toks.len()
            invariant
                0 <= i <= toks@.len(),
                self.wf(),
                o2.wf(),
                self.tokens == o2.tokens,
                self.places == o2.places,
                self.conditions == o2.conditions,
                jx < self.places@.len(),
                self.places@[jx as int] == x,
                self.places@.contains(y),
                forall|k2: int| 0 <= k2 < toks@.len() ==> self.tokens@.contains(#[trigger] toks@[k2]),
                forall|k2: int| 0 <= k2 < i ==> self.holds(#[trigger] toks@[k2], y),
                forall|s: Cell, p: Place| o2.holds(s, p) ==> self.holds(s, p),
                forall|p: Place, q: Place| o2.edge(p, q) ==> self.edge(p, q),
                self.measure() < o2.measure() || (self.measure() == o2.measure() && self.worklist == o2.worklist),
                forall|k2: int| 0 <= k2 < o2.worklist@.len() ==> self.worklist@.contains(#[trigger] o2.worklist@[k2]),
                forall|s: Cell, p: Place| #[trigger] self.holds(s, p) ==> o2.holds(s, p) || self.pending(s, p),
                forall|p: Place, q: Place| #[trigger] self.edge(p, q) ==> o2.edge(p, q),
                forall|s: Cell, p: Place| #[trigger] self.holds(s, p) ==> o2.holds(s, p) || (p == y && toks@.contains(s)),
                o2.pending_held() ==> self.pending_held(),
            decreases toks@.len() - i,
        {
            let ghost before = *self;
            self.add_token(toks[i], y);
            proof {
                assert forall|s: Cell, p: Place| #[trigger] self.holds(s, p) implies o2.holds(s, p) || self.pending(s, p) by {
                    if before.holds(s, p) {
                        if before.pending(s, p) {
                            let m = choose|m: int| 0 <= m < before.worklist@.len() && before.worklist@[m] == (s, p);
                            assert(self.worklist@.contains(before.worklist@[m]));
                        }
                    }
                }
                assert forall|p: Place, q: Place| #[trigger] self.edge(p, q) implies o2.edge(p, q) by {
                    assert(before.edge(p, q));
                }
                assert forall|s: Cell, p: Place| #[trigger] self.holds(s, p) implies o2.holds(s, p) || (p == y && toks@.contains(s)) by {
                    if !before.holds(s, p) {
                        assert(s == toks@[i as int]);
                    }
                }
                assert forall|k2: int| 0 <= k2 < o2.worklist@.len() implies self.worklist@.contains(#[trigger] o2.worklist@[k2]) by {
                    let w = o2.worklist@[k2];
                    assert(before.worklist@.contains(w));
                    let m = choose|m: int| 0 <= m < before.worklist@.len() && before.worklist@[m] == w;
                    assert(self.worklist@[m] == w);
                }
            }
            i += 1;
        }
        proof {
            assert forall|t: Cell| old(self).holds(t, x) implies self.holds(t, y) by {
                assert(o2.solution@[jx as int]@.contains(t));
                let m = choose|m: int| 0 <= m < toks@.len() && toks@[m] == t;
                assert(self.holds(toks@[m], y));
            }
            assert forall|k2: int| 0 <= k2 < old(self).worklist@.len() implies self.worklist@.contains(#[trigger] old(self).worklist@[k2]) by {
                let w = old(self).worklist@[k2];
                assert(o2.worklist@[k2] == w);
            }
            assert forall|s: Cell, p: Place| old(self).holds(s, p) implies self.holds(s, p) by {
                assert(o1.holds(s, p));
                assert(o2.solution == o1.solution && o2.places == o1.places);
                assert(o2.holds(s, p));
            }
            assert forall|s: Cell, p: Place| #[trigger] self.holds(s, p) implies old(self).holds(s, p) || self.pending(s, p) by {
                if o2.holds(s, p) {
                    assert(o1.holds(s, p));
                    assert(m1.holds(s, p));
                }
            }
            assert forall|p: Place, q: Place| #[trigger] self.edge(p, q) implies old(self).edge(p, q) || (p == x && q == y && x != y) by {
                assert(o2.edge(p, q));
                if o1.edge(p, q) {
                    assert(m1.edge(p, q));
                }
            }
            assert forall|k2: int| 0 <= k2 < old(self).worklist@.len() implies self.worklist@.contains(#[trigger] old(self).worklist@[k2]) by {
                assert(o2.worklist@[k2] == old(self).worklist@[k2]);
            }
            assert forall|ex: Option<(Cell, Place)>| #[trigger] old(self).closed_but(ex) implies self.closed_but(ex) by {
                Self::lemma_closed_edge(*old(self), *self, x, y, ex);
            }
            assert forall|s: Cell, p: Place| #[trigger] self.holds(s, p) implies old(self).holds(s, p) || (p == y && old(self).holds(s, x)) by {
                if o2.holds(s, p) {
                    assert(o1.holds(s, p));
                    assert(m1.holds(s, p));
                } else {
                    let m = choose|m: int| 0 <= m < toks@.len() && toks@[m] == s;
                    assert(o2.solution@[jx as int]@.contains(s));
                    assert(o2.holds(s, x));
                    assert(o1.holds(s, x));
                    assert(m1.holds(s, x));
                }
            }
        }
    }

    /// The index of a variable that was met.
    fn index_of_known(&self, p: Place) -> (r: usize)
        requires
            self.places@.contains(p),
        ensures
            r < self.places@.len(),
            self.places@[r as int] == p,
    {
        match self.find_place(p) {
            Some(j) => j,
            None => {
                proof {
                    assert(false);
                }
                0
            },
        }
    }

    /// Takes tokens off the worklist until it is empty: each token of a variable goes to
    /// the successors of the variable, and the conditions on it take effect.
    pub fn propagate(&mut self)
        requires
            old(self).wf(),
        ensures
            final(self).wf(),
            final(self).worklist@.len() == 0,
            final(self).tokens == old(self).tokens,
            final(self).places == old(self).places,
            final(self).conditions == old(self).conditions,
            forall|s: Cell, p: Place| old(self).holds(s, p) ==> final(self).holds(s, p),
            forall|p: Place, q: Place| old(self).edge(p, q) ==> final(self).edge(p, q),
            old(self).closed() ==> final(self).closed(),
            old(self).pending_held() ==> forall|s: Cell, p: Place| #[trigger] final(self).holds(s, p) ==> old(self).placed_somewhere(s),
    {
        let ghost c0 = old(self).closed();
        let ghost ph0 = old(self).pending_held();
        proof {
            if ph0 {
                assert forall|s: Cell, p: Place| #[trigger] self.holds(s, p) implies old(self).placed_somewhere(s) by {
                    assert(old(self).holds(s, p));
                }
            }
        }
        loop
            invariant
                self.wf(),
                self.tokens == old(self).tokens,
                self.places == old(self).places,
                self.conditions == old(self).conditions,
                forall|s: Cell, p: Place| old(self).holds(s, p) ==> self.holds(s, p),
                forall|p: Place, q: Place| old(self).edge(p, q) ==> self.edge(p, q),
                c0 == old(self).closed(),
                c0 ==> self.closed(),
                ph0 == old(self).pending_held(),
                ph0 ==> self.pending_held(),
                ph0 ==> forall|s: Cell, p: Place| #[trigger] self.holds(s, p) ==> old(self).placed_somewhere(s),
            ensures
                self.wf(),
                self.worklist@.len() == 0,
                self.tokens == old(self).tokens,
                self.places == old(self).places,
                self.conditions == old(self).conditions,
                forall|s: Cell, p: Place| old(self).holds(s, p) ==> self.holds(s, p),
                forall|p: Place, q: Place| old(self).edge(p, q) ==> self.edge(p, q),
                c0 ==> self.closed(),
                ph0 ==> forall|s: Cell, p: Place| #[trigger] self.holds(s, p) ==> old(self).placed_somewhere(s),
            decreases self.measure(), self.worklist@.len(),
        {
            proof {
                self.lemma_measure_nonneg();
            }
            let ghost pre = *self;
            let item = self.worklist.pop();
            let (t, x) = match item {
                Some(w) => w,
                None => {
                    proof {
                        if ph0 {
                            assert(self.solution == pre.solution && self.places == pre.places);
                            assert forall|s: Cell, p: Place| #[trigger] self.holds(s, p) implies old(self).placed_somewhere(s) by {
                                assert(pre.holds(s, p));
                            }
                        }
                        if c0 {
                            assert(self.worklist@ =~= pre.worklist@);
                            assert forall|t2: Cell, p2: Place| #[trigger] self.holds(t2, p2) && !self.pending(t2, p2)
                                && None::<(Cell, Place)> != Some((t2, p2)) implies self.passed_on(t2, p2) by {
                                assert(pre.holds(t2, p2));
                                assert(pre.passed_on(t2, p2));
                                assert forall|q: Place| #[trigger] self.edge(p2, q) implies self.holds(t2, q) by {
                                    assert(pre.edge(p2, q));
                                }
                            }
                        }
                    }
                    break;
                },
            };
            let ghost m0 = self.measure();
            let ghost w0 = self.worklist;
            let ghost s0 = *self;
            let ghost ex = Some((t, x));
            proof {
                if c0 {
                    Self::lemma_closed_pop(pre, s0, t, x);
                }
                if ph0 {
                    assert(s0.solution == pre.solution && s0.places == pre.places);
                    assert forall|s: Cell, p: Place| #[trigger] s0.holds(s, p) implies old(self).placed_somewhere(s) by {
                        assert(pre.holds(s, p));
                    }
                    let w = pre.worklist@[pre.worklist@.len() - 1];
                    assert(w == (t, x));
                    assert(pre.holds(w.0, w.1));
                    assert(s0.holds(t, x));
                    assert(old(self).placed_somewhere(t));
                    assert forall|i: int| 0 <= i < s0.worklist@.len() implies ({
                        let w2 = #[trigger] s0.worklist@[i];
                        s0.holds(w2.0, w2.1)
                    }) by {
                        assert(s0.worklist@[i] == pre.worklist@[i]);
                        let w2 = pre.worklist@[i];
                        assert(pre.holds(w2.0, w2.1));
                    }
                }
            }
            proof {
                assert(self.solution == pre.solution && self.tokens == pre.tokens);
                assert(m0 == pre.measure());
                assert(w0@.len() + 1 == pre.worklist@.len());
                assert(self.tokens@.contains(t) && self.places@.contains(x)) by {
                    assert(self.worklist@.push((t, x)).len() > 0);
                }
            }
            let mut i: usize = 0;
            while i < self.conditions.len()
                invariant
                    0 <= i <= self.conditions@.len(),
                    self.wf(),
                    self.tokens == s0.tokens,
                    self.places == s0.places,
                    self.conditions == s0.conditions,
                    self.tokens@.contains(t),
                    self.places@.contains(x),
                    forall|s: Cell, p: Place| s0.holds(s, p) ==> self.holds(s, p),
                    forall|p: Place, q: Place| s0.edge(p, q) ==> self.edge(p, q),
                    self.measure() < m0 || (self.measure() == m0 && self.worklist == w0),
                    c0 ==> self.closed_but(ex),
                    ph0 ==> self.pending_held(),
                    ph0 ==> old(self).placed_somewhere(t),
                    ph0 ==> forall|s: Cell, p: Place| #[trigger] self.holds(s, p) ==> old(self).placed_somewhere(s),
                    forall|m: int| 0 <= m < i && (#[trigger] self.conditions@[m]).0 == x && self.conditions@[m].1 == t
                        ==> self.conditions@[m].2 == self.conditions@[m].3 || self.edge(self.conditions@[m].2, self.conditions@[m].3),
                decreases self.conditions@.len() - i,
            {
                let c = self.conditions[i];
                let ghost before = *self;
                if c.0 == x && c.1 == t {
                    assert(self.places@.contains(c.2) && self.places@.contains(c.3));
                    self.add_edge(c.2, c.3);
                    proof {
                        if c0 {
                            assert(before.closed_but(ex));
                        }
                        if ph0 {
                            assert forall|s: Cell, p: Place| #[trigger] self.holds(s, p) implies old(self).placed_somewhere(s) by {
                                if !before.holds(s, p) {
                                    assert(before.holds(s, c.2));
                                }
                            }
                        }
                        assert forall|m: int| 0 <= m < i + 1 && (#[trigger] self.conditions@[m]).0 == x && self.conditions@[m].1 == t
                            implies self.conditions@[m].2 == self.conditions@[m].3 || self.edge(self.conditions@[m].2, self.conditions@[m].3) by {
                            if m < i && before.conditions@[m].2 != before.conditions@[m].3 {
                                assert(before.edge(before.conditions@[m].2, before.conditions@[m].3));
                            }
                        }
                    }
                }
                i += 1;
            }
            let jx = self.index_of_known(x);
            let succs = copy_places(&self.succesor[jx]);
            let mut k: usize = 0;
            while k < succs.len()
                invariant
                    0 <= k <= succs@.len(),
                    self.wf(),
                    self.tokens == s0.tokens,
                    self.places == s0.places,
                    self.conditions == s0.conditions,
                    self.tokens@.contains(t),
                    forall|m: int| 0 <= m < succs@.len() ==> self.places@.contains(#[trigger] succs@[m]),
                    forall|s: Cell, p: Place| s0.holds(s, p) ==> self.holds(s, p),
                    forall|p: Place, q: Place| s0.edge(p, q) ==> self.edge(p, q),
                    self.measure() < m0 || (self.measure() == m0 && self.worklist == w0),
                    c0 ==> self.closed_but(ex),
                    forall|m: int| 0 <= m < self.conditions@.len() && (#[trigger] self.conditions@[m]).0 == x && self.conditions@[m].1 == t
                        ==> self.conditions@[m].2 == self.conditions@[m].3 || self.edge(self.conditions@[m].2, self.conditions@[m].3),
                    jx < self.places@.len(),
                    self.places@[jx as int] == x,
                    self.succesor@[jx as int]@ == succs@,
                    forall|m: int| 0 <= m < k ==> self.holds(t, #[trigger] succs@[m]),
                    ph0 ==> self.pending_held(),
                    ph0 ==> old(self).placed_somewhere(t),
                    ph0 ==> forall|s: Cell, p: Place| #[trigger] self.holds(s, p) ==> old(self).placed_somewhere(s),
                decreases succs@.len() - k,
            {
                let ghost before = *self;
                self.add_token(t, succs[k]);
                proof {
                    if c0 {
                        assert(before.closed_but(ex));
                    }
                    if ph0 {
                        assert forall|s: Cell, p: Place| #[trigger] self.holds(s, p) implies old(self).placed_somewhere(s) by {
                            if !before.holds(s, p) {
                                assert(s == t);
                            }
                        }
                    }
                    assert forall|m: int| 0 <= m < self.conditions@.len() && (#[trigger] self.conditions@[m]).0 == x && self.conditions@[m].1 == t
                        implies self.conditions@[m].2 == self.conditions@[m].3 || self.edge(self.conditions@[m].2, self.conditions@[m].3) by {
                        if before.conditions@[m].2 != before.conditions@[m].3 {
                            assert(before.edge(before.conditions@[m].2, before.conditions@[m].3));
                        }
                    }
                    assert forall|m: int| 0 <= m < k + 1 implies self.holds(t, #[trigger] succs@[m]) by {
                        if m < k {
                            assert(before.holds(t, succs@[m]));
                        }
                    }
                }
                k += 1;
            }
            proof {
                if c0 {
                    assert forall|q: Place| #[trigger] self.edge(x, q) implies self.holds(t, q) by {
                        let jj = choose|jj: int| 0 <= jj < self.places@.len() && self.places@[jj] == x && (#[trigger] self.succesor@[jj])@.contains(q);
                        assert(self.places@.no_duplicates());
                        assert(jj == jx);
                        let m = choose|m: int| 0 <= m < succs@.len() && succs@[m] == q;
                        assert(self.holds(t, succs@[m]));
                    }
                    assert(self.passed_on(t, x));
                    assert(self.closed()) by {
                        assert forall|t2: Cell, p2: Place| #[trigger] self.holds(t2, p2) && !self.pending(t2, p2) && None::<(Cell, Place)> != Some((t2, p2))
                            implies self.passed_on(t2, p2) by {
                            if (t2, p2) != (t, x) {
                                assert(self.closed_but(ex));
                            }
                        }
                    }
                }
            }
            proof {
                assert forall|s: Cell, p: Place| old(self).holds(s, p) implies self.holds(s, p) by {
                    assert(pre.holds(s, p));
                    assert(s0.solution == pre.solution && s0.places == pre.places);
                    assert(s0.holds(s, p));
                }
                self.lemma_measure_nonneg();
                assert forall|p: Place, q: Place| old(self).edge(p, q) implies self.edge(p, q) by {
                    assert(pre.edge(p, q));
                    assert(s0.succesor == pre.succesor && s0.places == pre.places);
                    assert(s0.edge(p, q));
                }
            }
        }
    }

    /// Puts the token `t` in the set of `v` and propagates.
    pub fn includes(&mut self, t: Cell, v: Place)
        requires
            old(self).wf(),
        ensures
            final(self).wf(),
            final(self).holds(t, v),
            final(self).worklist@.len() == 0,
            final(self).pending_held(),
            forall|s: Cell, p: Place| old(self).holds(s, p) ==> final(self).holds(s, p),
            forall|p: Place, q: Place| old(self).edge(p, q) ==> final(self).edge(p, q),
            old(self).closed() ==> final(self).closed(),
            old(self).pending_held() ==> forall|s: Cell, p: Place| #[trigger] final(self).holds(s, p)
                ==> old(self).placed_somewhere(s) || s == t,
    {
        self.add_token(t, v);
        proof {
            if old(self).closed() {
                assert(old(self).closed_but(None));
            }
        }
        let ghost o1 = *self;
        self.propagate();
        proof {
            if old(self).pending_held() {
                assert forall|s: Cell, p: Place| #[trigger] self.holds(s, p) implies old(self).placed_somewhere(s) || s == t by {
                    assert(o1.placed_somewhere(s));
                    let q = choose|q: Place| #[trigger] o1.holds(s, q);
                    if s != t {
                        assert(old(self).holds(s, q));
                    }
                }
            }
        }
    }

    /// Records that the token `t` in the set of `x` makes the set of `y` included in
    /// that of `z`: at once when `t` is already there, else as a condition.
    pub fn includes_implies(&mut self, t: Cell, x: Place, y: Place, z: Place)
        requires
            old(self).wf(),
        ensures
            final(self).wf(),
            forall|s: Cell, p: Place| old(self).holds(s, p) ==> final(self).holds(s, p),
            forall|p: Place, q: Place| old(self).edge(p, q) ==> final(self).edge(p, q),
            old(self).holds(t, x) && y != z ==> final(self).edge(y, z),
            old(self).holds(t, x) ==> final(self).worklist@.len() == 0,
            !old(self).holds(t, x) ==> final(self).conditions@ == old(self).conditions@.push((x, t, y, z)),
            old(self).closed() ==> final(self).closed(),
            old(self).pending_held() ==> final(self).pending_held(),
            old(self).pending_held() ==> forall|s: Cell, p: Place| #[trigger] final(self).holds(s, p)
                ==> old(self).placed_somewhere(s),
    {
        let present = match self.find_place(x) {
            Some(j) => contains_cell(&self.solution[j], t),
            None => false,
        };
        proof {
            if old(self).holds(t, x) {
                let jj = choose|jj: int| 0 <= jj < self.places@.len() && self.places@[jj] == x && (#[trigger] self.solution@[jj])@.contains(t);
                assert(self.places@.no_duplicates());
            }
        }
        if present {
            self.add_edge(y, z);
            proof {
                if old(self).closed() {
                    assert(old(self).closed_but(None));
                }
            }
            let ghost o1 = *self;
            self.propagate();
            proof {
                if old(self).pending_held() {
                    assert forall|s: Cell, p: Place| #[trigger] self.holds(s, p) implies old(self).placed_somewhere(s) by {
                        assert(o1.placed_somewhere(s));
                        let q = choose|q: Place| #[trigger] o1.holds(s, q);
                        if !old(self).holds(s, q) {
                            assert(old(self).holds(s, y));
                        }
                    }
                }
                assert forall|s: Cell, p: Place| old(self).holds(s, p) implies self.holds(s, p) by {
                    assert(o1.holds(s, p));
                }
                assert forall|p: Place, q: Place| old(self).edge(p, q) implies self.edge(p, q) by {
                    assert(o1.edge(p, q));
                }
            }
        } else {
            self.register_token(t);
            let ghost r0 = *self;
            let _ = self.place_index(x);
            let ghost r1 = *self;
            proof {
                assert forall|jj: int| r0.places@.len() <= jj < r1.places@.len() implies (#[trigger] r1.succesor@[jj])@.len() == 0 by {
                    assert(r1.solution@[jj]@.len() == 0);
                }
                assert forall|jj: int| 0 <= jj < r0.places@.len() implies #[trigger] r1.succesor@[jj] == r0.succesor@[jj] by {
                    assert(r1.solution@[jj] == r0.solution@[jj]);
                }
                Self::lemma_extend_keeps(r0, r1);
            }
            let _ = self.place_index(y);
            let ghost r2 = *self;
            proof {
                assert forall|jj: int| r1.places@.len() <= jj < r2.places@.len() implies (#[trigger] r2.succesor@[jj])@.len() == 0 by {
                    assert(r2.solution@[jj]@.len() == 0);
                }
                assert forall|jj: int| 0 <= jj < r1.places@.len() implies #[trigger] r2.succesor@[jj] == r1.succesor@[jj] by {
                    assert(r2.solution@[jj] == r1.solution@[jj]);
                }
                Self::lemma_extend_keeps(r1, r2);
            }
            let _ = self.place_index(z);
            let ghost o = *self;
            proof {
                assert forall|jj: int| r2.places@.len() <= jj < o.places@.len() implies (#[trigger] o.succesor@[jj])@.len() == 0 by {
                    assert(o.solution@[jj]@.len() == 0);
                }
                assert forall|jj: int| 0 <= jj < r2.places@.len() implies #[trigger] o.succesor@[jj] == r2.succesor@[jj] by {
                    assert(o.solution@[jj] == r2.solution@[jj]);
                }
                Self::lemma_extend_keeps(r2, o);
            }
            proof {
                assert forall|s: Cell, p: Place| old(self).holds(s, p) implies o.holds(s, p) by {
                    let jj = choose|jj: int| 0 <= jj < old(self).places@.len() && old(self).places@[jj] == p && (#[trigger] old(self).solution@[jj])@.contains(s);
                    assert(o.places@[jj] == p);
                    assert(o.solution@[jj]@.contains(s));
                }
                assert forall|p: Place, q: Place| old(self).edge(p, q) implies o.edge(p, q) by {
                    let jj = choose|jj: int| 0 <= jj < old(self).places@.len() && old(self).places@[jj] == p && (#[trigger] old(self).succesor@[jj])@.contains(q);
                    assert(o.places@[jj] == p);
                    assert(o.succesor@[jj]@.contains(q));
                }
            }
            self.conditions.push((x, t, y, z));
            proof {
                assert forall|i: int| 0 <= i < self.conditions@.len() implies ({
                    let c = #[trigger] self.conditions@[i];
                    self.places@.contains(c.0) && self.tokens@.contains(c.1) && self.places@.contains(c.2)
                        && self.places@.contains(c.3)
                }) by {
                    if i < o.conditions@.len() {
                        assert(self.conditions@[i] == o.conditions@[i]);
                    } else {
                        assert(self.places@.contains(x));
                    }
                }
                assert forall|s: Cell, p: Place| old(self).holds(s, p) implies self.holds(s, p) by {
                    assert(o.holds(s, p));
                    let jj = choose|jj: int| 0 <= jj < o.places@.len() && o.places@[jj] == p && (#[trigger] o.solution@[jj])@.contains(s);
                    assert(self.solution@[jj] == o.solution@[jj]);
                }
                assert forall|p: Place, q: Place| old(self).edge(p, q) implies self.edge(p, q) by {
                    assert(o.edge(p, q));
                    let jj = choose|jj: int| 0 <= jj < o.places@.len() && o.places@[jj] == p && (#[trigger] o.succesor@[jj])@.contains(q);
                    assert(self.succesor@[jj] == o.succesor@[jj]);
                }
                assert forall|s: Cell, p: Place| #[trigger] self.holds(s, p) implies old(self).holds(s, p) by {
                    let jj = choose|jj: int| 0 <= jj < self.places@.len() && self.places@[jj] == p && (#[trigger] self.solution@[jj])@.contains(s);
                    assert(self.solution@[jj] == o.solution@[jj]);
                    if jj < r0.places@.len() {
                        assert(o.solution@[jj] == r2.solution@[jj]);
                        assert(r2.solution@[jj] == r1.solution@[jj]);
                        assert(r1.solution@[jj] == r0.solution@[jj]);
                        assert(old(self).places@[jj] == p);
                    } else if jj < r1.places@.len() {
                        assert(o.solution@[jj] == r2.solution@[jj]);
                        assert(r2.solution@[jj] == r1.solution@[jj]);
                        assert(r1.solution@[jj]@.len() == 0);
                    } else if jj < r2.places@.len() {
                        assert(o.solution@[jj] == r2.solution@[jj]);
                        assert(r2.solution@[jj]@.len() == 0);
                    } else {
                        assert(o.solution@[jj]@.len() == 0);
                    }
                }
                if old(self).pending_held() {
                    assert forall|i: int| 0 <= i < self.worklist@.len() implies ({
                        let w = #[trigger] self.worklist@[i];
                        self.holds(w.0, w.1)
                    }) by {
                        assert(self.worklist@[i] == old(self).worklist@[i]);
                        assert(old(self).holds(self.worklist@[i].0, self.worklist@[i].1));
                    }
                    assert forall|s: Cell, p: Place| #[trigger] self.holds(s, p) implies old(self).placed_somewhere(s) by {
                        assert(old(self).holds(s, p));
                    }
                }
                if old(self).closed() {
                    assert(!o.holds(t, x));
                    assert forall|t2: Cell, p2: Place| #[trigger] self.holds(t2, p2) && !self.pending(t2, p2)
                        && None::<(Cell, Place)> != Some((t2, p2)) implies self.passed_on(t2, p2) by {
                        assert(old(self).holds(t2, p2));
                        assert(old(self).passed_on(t2, p2));
                        assert forall|q: Place| #[trigger] self.edge(p2, q) implies self.holds(t2, q) by {
                            assert(old(self).edge(p2, q));
                            assert(old(self).holds(t2, q));
                        }
                        assert forall|i: int| 0 <= i < self.conditions@.len() && (#[trigger] self.conditions@[i]).0 == p2
                            && self.conditions@[i].1 == t2 implies self.conditions@[i].2 == self.conditions@[i].3 || self.edge(
                            self.conditions@[i].2,
                            self.conditions@[i].3,
                        ) by {
                            if i < old(self).conditions@.len() {
                                assert(self.conditions@[i] == old(self).conditions@[i]);
                                if old(self).conditions@[i].2 != old(self).conditions@[i].3 {
                                    assert(old(self).edge(old(self).conditions@[i].2, old(self).conditions@[i].3));
                                }
                            } else {
                                assert(self.conditions@[i] == (x, t, y, z));
                            }
                        }
                    }
                }
            }
        }
    }

    /// Once no work is left, the sets solve the constraints: every token in a variable is
    /// in the set of each of its successors, and a condition whose token is in its
    /// variable has made its inclusion, so that the tokens of the one set are in the other.
    pub proof fn lemma_closed_solves(&self)
        requires
            self.closed(),
            self.worklist@.len() == 0,
        ensures
            forall|t: Cell, p: Place, q: Place| #[trigger] self.holds(t, p) && #[trigger] self.edge(p, q) ==> self.holds(t, q),
            forall|i: int, s: Cell| 0 <= i < self.conditions@.len() && self.holds(self.conditions@[i].1, self.conditions@[i].0)
                && #[trigger] self.holds(s, (#[trigger] self.conditions@[i]).2) ==> self.holds(s, self.conditions@[i].3),
    {
        assert forall|t: Cell, p: Place, q: Place| #[trigger] self.holds(t, p) && #[trigger] self.edge(p, q) implies self.holds(t, q) by {
            assert(!self.pending(t, p));
            assert(self.passed_on(t, p));
        }
        assert forall|i: int, s: Cell| 0 <= i < self.conditions@.len() && self.holds(self.conditions@[i].1, self.conditions@[i].0)
            && #[trigger] self.holds(s, (#[trigger] self.conditions@[i]).2) implies self.holds(s, self.conditions@[i].3) by {
            let c = self.conditions@[i];
            assert(!self.pending(c.1, c.0));
            assert(self.passed_on(c.1, c.0));
            if c.2 != c.3 {
                assert(self.edge(c.2, c.3));
                assert(!self.pending(s, c.2));
                assert(self.passed_on(s, c.2));
            }
        }
    }

    /// The set of each variable met.
    pub fn solution(self) -> (r: Vec<(Place, Vec<Cell>)>)
        requires
            self.wf(),
        ensures
            r@.len() == self.places@.len(),
            forall|j: int| 0 <= j < r@.len() ==> (#[trigger] r@[j]).0 == self.places@[j] && r@[j].1@
                == self.solution@[j]@,
    {
        let mut out: Vec<(Place, Vec<Cell>)> = Vec::new();
        let mut j: usize = 0;
        while j < self.places.len()
            invariant
                0 <= j <= self.places@.len(),
                self.wf(),
                out@.len() == j,
                forall|k: int| 0 <= k < j ==> (#[trigger] out@[k]).0 == self.places@[k] && out@[k].1@
                    == self.solution@[k]@,
            decreases self.places@.len() - j,
        {
            out.push((self.places[j], copy_cells(&self.solution[j])));
            j += 1;
        }
        out
    }

    /// Taking the last item off the worklist leaves every other token passed on.
    proof fn lemma_closed_pop(o: CubicSolver, n: CubicSolver, t: Cell, x: Place)
        requires
            o.closed(),
            o.worklist@.len() > 0,
            o.worklist@.last() == (t, x),
            n.worklist@ == o.worklist@.drop_last(),
            n.places == o.places,
            n.solution == o.solution,
            n.succesor == o.succesor,
            n.conditions == o.conditions,
        ensures
            n.closed_but(Some((t, x))),
    {
        assert forall|t2: Cell, p2: Place| #[trigger] n.holds(t2, p2) && !n.pending(t2, p2) && Some((t, x)) != Some((t2, p2))
            implies n.passed_on(t2, p2) by {
            assert(o.holds(t2, p2));
            if o.pending(t2, p2) {
                let m = choose|m: int| 0 <= m < o.worklist@.len() && o.worklist@[m] == (t2, p2);
                if m < o.worklist@.len() - 1 {
                    assert(n.worklist@[m] == (t2, p2));
                }
            }
            assert(o.passed_on(t2, p2));
            assert forall|q: Place| #[trigger] n.edge(p2, q) implies n.holds(t2, q) by {
                assert(o.edge(p2, q));
            }
        }
    }

    /// Adding tokens that wait on the worklist keeps every token in a variable passed on.
    proof fn lemma_closed_grow(o: CubicSolver, n: CubicSolver, ex: Option<(Cell, Place)>)
        requires
            o.closed_but(ex),
            n.conditions == o.conditions,
            forall|p: Place, q: Place| #[trigger] n.edge(p, q) ==> o.edge(p, q),
            forall|p: Place, q: Place| o.edge(p, q) ==> n.edge(p, q),
            forall|s: Cell, p: Place| o.holds(s, p) ==> n.holds(s, p),
            forall|s: Cell, p: Place| #[trigger] n.holds(s, p) && !o.holds(s, p) ==> n.pending(s, p),
            forall|i: int| 0 <= i < o.worklist@.len() ==> n.worklist@.contains(#[trigger] o.worklist@[i]),
        ensures
            n.closed_but(ex),
    {
        assert forall|t: Cell, p: Place| #[trigger] n.holds(t, p) && !n.pending(t, p) && ex != Some((t, p)) implies n.passed_on(t, p) by {
            assert(o.holds(t, p));
            if o.pending(t, p) {
                let m = choose|m: int| 0 <= m < o.worklist@.len() && o.worklist@[m] == (t, p);
                assert(n.worklist@.contains(o.worklist@[m]));
            }
            assert(o.passed_on(t, p));
            assert forall|q: Place| #[trigger] n.edge(p, q) implies n.holds(t, q) by {
                assert(o.edge(p, q));
                assert(o.holds(t, q));
            }
        }
    }

    /// Adding the inclusion of `x` in `y`, with the tokens of `x` put in `y` and any new
    /// token waiting on the worklist, keeps every token in a variable passed on.
    proof fn lemma_closed_edge(o: CubicSolver, n: CubicSolver, x: Place, y: Place, ex: Option<(Cell, Place)>)
        requires
            o.closed_but(ex),
            n.conditions == o.conditions,
            forall|p: Place, q: Place| #[trigger] n.edge(p, q) ==> o.edge(p, q) || (p == x && q == y && x != y),
            forall|p: Place, q: Place| o.edge(p, q) ==> n.edge(p, q),
            forall|s: Cell, p: Place| o.holds(s, p) ==> n.holds(s, p),
            forall|s: Cell, p: Place| #[trigger] n.holds(s, p) ==> o.holds(s, p) || n.pending(s, p),
            forall|i: int| 0 <= i < o.worklist@.len() ==> n.worklist@.contains(#[trigger] o.worklist@[i]),
            x != y ==> forall|t: Cell| o.holds(t, x) ==> n.holds(t, y),
        ensures
            n.closed_but(ex),
    {
        assert forall|t: Cell, p: Place| #[trigger] n.holds(t, p) && !n.pending(t, p) && ex != Some((t, p)) implies n.passed_on(t, p) by {
            assert(o.holds(t, p));
            if o.pending(t, p) {
                let m = choose|m: int| 0 <= m < o.worklist@.len() && o.worklist@[m] == (t, p);
                assert(n.worklist@.contains(o.worklist@[m]));
            }
            assert(o.passed_on(t, p));
            assert forall|q: Place| #[trigger] n.edge(p, q) implies n.holds(t, q) by {
                if o.edge(p, q) {
                    assert(o.holds(t, q));
                }
            }
        }
    }

    /// Listing new variables with empty sets changes no set and no successor list.
    proof fn lemma_extend_keeps(o: CubicSolver, n: CubicSolver)
        requires
            n.places@.len() >= o.places@.len(),
            o.solution@.len() == o.places@.len(),
            o.succesor@.len() == o.places@.len(),
            n.solution@.len() == n.places@.len(),
            n.succesor@.len() == n.places@.len(),
            forall|jj: int| 0 <= jj < o.places@.len() ==> n.places@[jj] == o.places@[jj]
                && #[trigger] n.solution@[jj] == o.solution@[jj] && n.succesor@[jj] == o.succesor@[jj],
            forall|j: int| o.places@.len() <= j < n.places@.len() ==> (#[trigger] n.solution@[j])@.len() == 0
                && n.succesor@[j]@.len() == 0,
            forall|jj: int| 0 <= jj < o.places@.len() ==> #[trigger] n.succesor@[jj] == o.succesor@[jj],
            forall|j: int| o.places@.len() <= j < n.places@.len() ==> (#[trigger] n.succesor@[j])@.len() == 0,
        ensures
            forall|s: Cell, p: Place| #[trigger] n.holds(s, p) == o.holds(s, p),
            forall|p: Place, q: Place| #[trigger] n.edge(p, q) == o.edge(p, q),
    {
        assert forall|s: Cell, p: Place| #[trigger] n.holds(s, p) == o.holds(s, p) by {
            if n.holds(s, p) {
                let j = choose|j: int| 0 <= j < n.places@.len() && n.places@[j] == p && (#[trigger] n.solution@[j])@.contains(s);
                if j >= o.places@.len() {
                    assert(n.solution@[j]@.len() == 0);
                }
                assert(o.solution@[j]@.contains(s));
            }
            if o.holds(s, p) {
                let j = choose|j: int| 0 <= j < o.places@.len() && o.places@[j] == p && (#[trigger] o.solution@[j])@.contains(s);
                assert(n.solution@[j]@.contains(s));
            }
        }
        assert forall|p: Place, q: Place| #[trigger] n.edge(p, q) == o.edge(p, q) by {
            if n.edge(p, q) {
                let j = choose|j: int| 0 <= j < n.places@.len() && n.places@[j] == p && (#[trigger] n.succesor@[j])@.contains(q);
                if j >= o.places@.len() {
                    assert(n.succesor@[j]@.len() == 0);
                }
                assert(n.solution@[j] == o.solution@[j]);
                assert(o.succesor@[j]@.contains(q));
            }
            if o.edge(p, q) {
                let j = choose|j: int| 0 <= j < o.places@.len() && o.places@[j] == p && (#[trigger] o.succesor@[j])@.contains(q);
                assert(n.solution@[j] == o.solution@[j]);
                assert(n.succesor@[j]@.contains(q));
            }
        }
    }

    proof fn lemma_measure_nonneg(&self)
        requires
            self.wf(),
        ensures
            self.measure() >= 0,
    {
        lemma_slack_nonneg(self.solution@, self.tokens@.len() as int);
    }
}

} // verus!
