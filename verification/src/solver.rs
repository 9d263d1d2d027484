//! The constraint-propagation solver. Operations register equalities between
//! factoid-valued quantities — the datum type, rank, a dimension, or the
//! whole value of a fact in a workspace — and the solver repeatedly meets
//! the two sides of every constraint and writes the combined knowledge back,
//! narrowing the facts until a full sweep changes nothing. It never guesses:
//! a quantity not forced by the constraints stays unknown, and two
//! conflicting concrete quantities are a hard failure.

use vstd::prelude::*;

use crate::dim::TDim;
use crate::error::GraphError;
use crate::fact::{DimFact, IFactView, InferenceFact, ShapeFactoid, ShapeView};
use crate::factoid::Factoid;
use crate::tensor::{value_view, DatumType};

verus! {

/// One registered constraint between factoid-valued quantities. Slots index
/// the workspace of facts handed to `solve`.
#[derive(Clone, Copy, PartialEq, Eq, Structural, Debug)]
pub enum Rule {
    /// The datum types of two facts agree.
    TypeEq { a: usize, b: usize },
    /// A fact's datum type is this type.
    TypeIs { a: usize, dt: DatumType },
    /// The ranks of two facts agree.
    RankEq { a: usize, b: usize },
    /// A fact's rank is this.
    RankIs { a: usize, rank: usize },
    /// One dimension of one fact equals one dimension of another.
    DimEq { a: usize, axis_a: usize, b: usize, axis_b: usize },
    /// A fact's dimension at an axis is this.
    DimIs { a: usize, axis: usize, dim: TDim },
    /// The whole values of two facts agree.
    ValueEq { a: usize, b: usize },
}

/// What is known about a fact's rank.
pub open spec fn rank_of(f: IFactView) -> Factoid<int> {
    match f.shape {
        ShapeView::Open => Factoid::Any,
        ShapeView::Closed(dims) => Factoid::Only(dims.len() as int),
    }
}

/// Whether a dimension constraint cannot yet be stored: its shape's axis
/// count is still unknown.
pub open spec fn rule_blocked(c: Rule, fs: Seq<IFactView>) -> bool {
    match c {
        Rule::DimEq { a, b, .. } => fs[a as int].shape is Open || fs[b as int].shape is Open,
        Rule::DimIs { a, .. } => fs[a as int].shape is Open,
        _ => false,
    }
}

/// Whether a constraint holds of the workspace: both its sides carry the
/// same knowledge, a constant side being knowledge of exactly that value.
pub open spec fn rule_satisfied(c: Rule, fs: Seq<IFactView>) -> bool {
    match c {
        Rule::TypeEq { a, b } => fs[a as int].datum_type == fs[b as int].datum_type,
        Rule::TypeIs { a, dt } => fs[a as int].datum_type == Factoid::<DatumType>::Only(dt),
        Rule::RankEq { a, b } => rank_of(fs[a as int]) == rank_of(fs[b as int]),
        Rule::RankIs { a, rank } => rank_of(fs[a as int]) == Factoid::<int>::Only(rank as int),
        Rule::DimEq { a, axis_a, b, axis_b } => {
            let sa = fs[a as int].shape;
            let sb = fs[b as int].shape;
            &&& sa is Closed
            &&& sb is Closed
            &&& axis_a < sa->Closed_0.len()
            &&& axis_b < sb->Closed_0.len()
            &&& sa->Closed_0[axis_a as int] == sb->Closed_0[axis_b as int]
        },
        Rule::DimIs { a, axis, dim } => {
            let sa = fs[a as int].shape;
            &&& sa is Closed
            &&& axis < sa->Closed_0.len()
            &&& sa->Closed_0[axis as int] == Factoid::Only(dim)
        },
        Rule::ValueEq { a, b } => fs[a as int].value == fs[b as int].value,
    }
}

/// The slots a constraint reads must exist in the workspace.
pub open spec fn rule_in_range(c: Rule, n: int) -> bool {
    match c {
        Rule::TypeEq { a, b } => a < n && b < n,
        Rule::TypeIs { a, .. } => a < n,
        Rule::RankEq { a, b } => a < n && b < n,
        Rule::RankIs { a, .. } => a < n,
        Rule::DimEq { a, b, .. } => a < n && b < n,
        Rule::DimIs { a, .. } => a < n,
        Rule::ValueEq { a, b } => a < n && b < n,
    }
}

/// One factoid refines another when it says at least as much.
pub open spec fn factoid_refines<T>(new: Factoid<T>, old: Factoid<T>) -> bool {
    old is Any || new == old
}

/// A shape refines another when its rank and every axis say at least as
/// much.
pub open spec fn shape_refines(new: ShapeView, old: ShapeView) -> bool {
    match old {
        ShapeView::Open => true,
        ShapeView::Closed(od) => match new {
            ShapeView::Open => false,
            ShapeView::Closed(nd) => nd.len() == od.len() && forall|k: int|
                0 <= k < od.len() ==> factoid_refines(#[trigger] nd[k], od[k]),
        },
    }
}

/// A fact refines another when every component does: the solver only ever
/// narrows knowledge, never discards or changes it.
pub open spec fn fact_refines(new: IFactView, old: IFactView) -> bool {
    &&& factoid_refines(new.datum_type, old.datum_type)
    &&& shape_refines(new.shape, old.shape)
    &&& factoid_refines(new.value, old.value)
}

/// Refinement is transitive.
pub proof fn lemma_fact_refines_trans(a: IFactView, b: IFactView, c: IFactView)
    requires
        fact_refines(a, b),
        fact_refines(b, c),
    ensures
        fact_refines(a, c),
{
}

/// The mathematical values of a workspace.
pub open spec fn fact_views(fs: Seq<InferenceFact>) -> Seq<IFactView> {
    fs.map_values(|f: InferenceFact| f@)
}

/// A solver context: the constraints operations have registered.
#[derive(Debug)]
pub struct Solver {
    pub rules: Vec<Rule>,
}

impl Solver {
    /// A context with no constraints yet.
    pub fn new() -> (r: Solver)
        ensures
            r.rules@.len() == 0,
    {
        Solver { rules: Vec::new() }
    }

    /// Register one constraint.
    pub fn equals(&mut self, c: Rule)
        ensures
            final(self).rules@ == old(self).rules@.push(c),
    {
        self.rules.push(c);
    }

    /// Propagate all registered constraints over a workspace of facts to a
    /// fixpoint, which every run reaches: each narrowing settles one of
    /// finitely many unknown quantities, so the sweeps terminate. The result
    /// refines the input — knowledge only narrows, never gets guessed — and
    /// at the fixpoint every constraint either holds or is still blocked by
    /// an unknown rank. Conflicting concrete knowledge, or a dimension
    /// constraint beyond a fact's known rank, is a hard failure; a
    /// constraint naming a missing slot is rejected before anything runs.
    pub fn solve(&self, facts: &Vec<InferenceFact>) -> (r: Result<
        (Vec<InferenceFact>, bool),
        GraphError,
    >)
        ensures
            (match r {
                Ok((out, converged)) => {
                    &&& out@.len() == facts@.len()
                    &&& forall|i: int|
                        0 <= i < out@.len() ==> fact_refines(
                            (#[trigger] out@[i])@,
                            facts@[i]@,
                        )
                    &&& converged ==> forall|j: int|
                        0 <= j < self.rules@.len() ==> rule_satisfied(
                            #[trigger] self.rules@[j],
                            fact_views(out@),
                        ) || rule_blocked(self.rules@[j], fact_views(out@))
                    &&& forall|j: int|
                        0 <= j < self.rules@.len() ==> rule_in_range(
                            #[trigger] self.rules@[j],
                            facts@.len() as int,
                        )
                },
                Err(e) => e == GraphError::Conflict || e == GraphError::RankMismatch || e
                    == GraphError::UnknownQuantity,
            }),
            r is Ok ==> r->Ok_0.1,
            (r == Err::<(Vec<InferenceFact>, bool), GraphError>(GraphError::UnknownQuantity)
                <==> exists|j: int|
                0 <= j < self.rules@.len() && !rule_in_range(
                    #[trigger] self.rules@[j],
                    facts@.len() as int,
                )),
    {
        let n = facts.len();
        let mut j: usize = 0;
        while j < self.rules.len()
            invariant
                j <= self.rules@.len(),
                n == facts@.len(),
                forall|t: int|
                    0 <= t < j ==> rule_in_range(#[trigger] self.rules@[t], n as int),
            decreases self.rules@.len() - j,
        {
            if !rule_slots_ok(&self.rules[j], n) {
                proof {
                    assert(!rule_in_range(self.rules@[j as int], n as int));
                }
                return Err(GraphError::UnknownQuantity);
            }
            j = j + 1;
        }

        let mut work: Vec<InferenceFact> = Vec::new();
        let mut i: usize = 0;
        while i < facts.len()
            invariant
                i <= facts@.len(),
                work@.len() == i,
                forall|t: int| 0 <= t < i ==> (#[trigger] work@[t])@ == facts@[t]@,
            decreases facts@.len() - i,
        {
            work.push(duplicate_fact(&facts[i]));
            i = i + 1;
        }
        proof {
            assert forall|t: int| 0 <= t < work@.len() implies fact_refines(
                (#[trigger] work@[t])@,
                facts@[t]@,
            ) by {}
        }

        let mut converged = false;
        while !converged
            invariant
                n == facts@.len(),
                work@.len() == n,
                forall|t: int|
                    0 <= t < self.rules@.len() ==> rule_in_range(
                        #[trigger] self.rules@[t],
                        n as int,
                    ),
                forall|t: int|
                    0 <= t < n ==> fact_refines((#[trigger] work@[t])@, facts@[t]@),
                converged ==> forall|j2: int|
                    0 <= j2 < self.rules@.len() ==> rule_satisfied(
                        #[trigger] self.rules@[j2],
                        fact_views(work@),
                    ) || rule_blocked(self.rules@[j2], fact_views(work@)),
            decreases
                    opens_sum(fact_views(work@)),
                    anys_sum(fact_views(work@)),
                    (if converged {
                        0int
                    } else {
                        1int
                    }),
        {
            let ghost v0 = fact_views(work@);
            let mut changed = false;
            let mut j: usize = 0;
            while j < self.rules.len()
                invariant
                    n == facts@.len(),
                    work@.len() == n,
                    j <= self.rules@.len(),
                    forall|t: int|
                        0 <= t < self.rules@.len() ==> rule_in_range(
                            #[trigger] self.rules@[t],
                            n as int,
                        ),
                    forall|t: int|
                        0 <= t < n ==> fact_refines((#[trigger] work@[t])@, facts@[t]@),
                    changed ==> measure_lt(fact_views(work@), v0),
                    !changed ==> fact_views(work@) == v0,
                    !changed ==> forall|j2: int|
                        0 <= j2 < j ==> rule_satisfied(
                            #[trigger] self.rules@[j2],
                            fact_views(work@),
                        ) || rule_blocked(self.rules@[j2], fact_views(work@)),
                decreases self.rules@.len() - j,
            {
                let ghost before = work@;
                let step = match apply_rule(&self.rules[j], &mut work) {
                    Err(e) => {
                        return Err(e);
                    },
                    Ok(step) => step,
                };
                proof {
                    if step {
                        lemma_measure_lt_trans(fact_views(work@), fact_views(before), v0);
                    } else {
                        assert(fact_views(work@) =~= fact_views(before));
                    }
                    assert forall|t: int| 0 <= t < n implies fact_refines(
                        (#[trigger] work@[t])@,
                        facts@[t]@,
                    ) by {
                        lemma_fact_refines_trans(work@[t]@, before[t]@, facts@[t]@);
                    }
                }
                if step {
                    changed = true;
                }
                j = j + 1;
            }
            if !changed {
                converged = true;
            }
        }
        Ok((work, converged))
    }
}

/// Whether the slots a constraint names exist.
fn rule_slots_ok(c: &Rule, n: usize) -> (r: bool)
    ensures
        r == rule_in_range(*c, n as int),
{
    match c {
        Rule::TypeEq { a, b } => *a < n && *b < n,
        Rule::TypeIs { a, .. } => *a < n,
        Rule::RankEq { a, b } => *a < n && *b < n,
        Rule::RankIs { a, .. } => *a < n,
        Rule::DimEq { a, b, .. } => *a < n && *b < n,
        Rule::DimIs { a, .. } => *a < n,
        Rule::ValueEq { a, b } => *a < n && *b < n,
    }
}

/// An exact copy of a fact.
fn duplicate_fact(f: &InferenceFact) -> (r: InferenceFact)
    ensures
        r@ == f@,
{
    let value = match &f.value {
        Factoid::Any => Factoid::Any,
        Factoid::Only(t) => Factoid::Only(t.duplicate()),
    };
    InferenceFact { datum_type: f.datum_type, shape: f.shape.duplicate(), value }
}

/// How many facts still have an unknown rank.
pub open spec fn opens_sum(fs: Seq<IFactView>) -> nat
    decreases fs.len(),
{
    if fs.len() == 0 {
        0nat
    } else {
        opens_sum(fs.drop_last()) + (if fs.last().shape is Open {
            1nat
        } else {
            0nat
        })
    }
}

/// How many dimension factoids of a closed shape are still unknown.
pub open spec fn anys_in_dims(d: Seq<DimFact>) -> nat
    decreases d.len(),
{
    if d.len() == 0 {
        0nat
    } else {
        anys_in_dims(d.drop_last()) + (if d.last() is Any {
            1nat
        } else {
            0nat
        })
    }
}

/// How many quantities of one fact are still unknown, its rank aside.
pub open spec fn fact_anys(f: IFactView) -> nat {
    (if f.datum_type is Any {
        1nat
    } else {
        0nat
    }) + (if f.value is Any {
        1nat
    } else {
        0nat
    }) + (match f.shape {
        ShapeView::Open => 0nat,
        ShapeView::Closed(d) => anys_in_dims(d),
    })
}

/// How many quantities of a workspace are still unknown, ranks aside.
pub open spec fn anys_sum(fs: Seq<IFactView>) -> nat
    decreases fs.len(),
{
    if fs.len() == 0 {
        0nat
    } else {
        anys_sum(fs.drop_last()) + fact_anys(fs.last())
    }
}

/// Every step of propagation strictly shrinks this lexicographic measure:
/// closing a rank settles one open shape, and any other narrowing settles
/// one unknown quantity without opening anything.
pub open spec fn measure_lt(post: Seq<IFactView>, pre: Seq<IFactView>) -> bool {
    opens_sum(post) < opens_sum(pre) || (opens_sum(post) == opens_sum(pre) && anys_sum(post)
        < anys_sum(pre))
}

proof fn lemma_opens_update(fs: Seq<IFactView>, i: int, v: IFactView)
    requires
        0 <= i < fs.len(),
    ensures
        opens_sum(fs.update(i, v)) + (if fs[i].shape is Open {
            1nat
        } else {
            0nat
        }) == opens_sum(fs) + (if v.shape is Open {
            1nat
        } else {
            0nat
        }),
    decreases fs.len(),
{
    let g = fs.update(i, v);
    if i == fs.len() - 1 {
        assert(g.drop_last() =~= fs.drop_last());
        assert(g.last() == v);
    } else {
        assert(g.drop_last() =~= fs.drop_last().update(i, v));
        assert(g.last() == fs.last());
        lemma_opens_update(fs.drop_last(), i, v);
    }
}

proof fn lemma_anys_update(fs: Seq<IFactView>, i: int, v: IFactView)
    requires
        0 <= i < fs.len(),
    ensures
        anys_sum(fs.update(i, v)) + fact_anys(fs[i]) == anys_sum(fs) + fact_anys(v),
    decreases fs.len(),
{
    let g = fs.update(i, v);
    if i == fs.len() - 1 {
        assert(g.drop_last() =~= fs.drop_last());
        assert(g.last() == v);
    } else {
        assert(g.drop_last() =~= fs.drop_last().update(i, v));
        assert(g.last() == fs.last());
        lemma_anys_update(fs.drop_last(), i, v);
    }
}

proof fn lemma_anys_dims_update(d: Seq<DimFact>, i: int, v: DimFact)
    requires
        0 <= i < d.len(),
    ensures
        anys_in_dims(d.update(i, v)) + (if d[i] is Any {
            1nat
        } else {
            0nat
        }) == anys_in_dims(d) + (if v is Any {
            1nat
        } else {
            0nat
        }),
    decreases d.len(),
{
    let g = d.update(i, v);
    if i == d.len() - 1 {
        assert(g.drop_last() =~= d.drop_last());
        assert(g.last() == v);
    } else {
        assert(g.drop_last() =~= d.drop_last().update(i, v));
        assert(g.last() == d.last());
        lemma_anys_dims_update(d.drop_last(), i, v);
    }
}

/// A narrowing write strictly shrinks the measure: the two workspaces agree
/// except at one fact, whose rank closed or whose unknown count dropped.
proof fn lemma_measure_step(pre: Seq<IFactView>, post: Seq<IFactView>, i: int)
    requires
        0 <= i < pre.len(),
        post == pre.update(i, post[i]),
        (pre[i].shape is Open && post[i].shape is Closed) || ((post[i].shape
            is Open <==> pre[i].shape is Open) && fact_anys(post[i]) < fact_anys(pre[i])),
    ensures
        measure_lt(post, pre),
{
    lemma_opens_update(pre, i, post[i]);
    lemma_anys_update(pre, i, post[i]);
}

/// A measure that shrank stays shrunk under a further non-increasing step.
proof fn lemma_measure_le_trans(a: Seq<IFactView>, b: Seq<IFactView>, c: Seq<IFactView>)
    requires
        measure_lt(b, c) || b == c,
        measure_lt(a, b) || a == b,
    ensures
        measure_lt(a, c) || a == c,
{
}

/// A strict shrink followed by a non-increase is a strict shrink.
proof fn lemma_measure_lt_trans(a: Seq<IFactView>, b: Seq<IFactView>, c: Seq<IFactView>)
    requires
        measure_lt(a, b),
        measure_lt(b, c) || b == c,
    ensures
        measure_lt(a, c),
{
}

/// Meet one constraint's two sides and write the combined knowledge back.
/// Returns whether anything narrowed; an unchanged workspace means the
/// constraint already holds or is still blocked by an unknown rank, and
/// every narrowing strictly shrinks the workspace's unknown-count measure.
#[verifier::rlimit(100)]
fn apply_rule(c: &Rule, work: &mut Vec<InferenceFact>) -> (r: Result<bool, GraphError>)
    requires
        rule_in_range(*c, old(work)@.len() as int),
    ensures
        (match r {
            Ok(step) => {
                &&& final(work)@.len() == old(work)@.len()
                &&& forall|t: int|
                    0 <= t < old(work)@.len() ==> fact_refines(
                        (#[trigger] final(work)@[t])@,
                        old(work)@[t]@,
                    )
                &&& !step ==> (forall|t: int|
                    0 <= t < old(work)@.len() ==> (#[trigger] final(work)@[t])@ == old(
                        work,
                    )@[t]@) && (rule_satisfied(*c, fact_views(final(work)@)) || rule_blocked(
                    *c,
                    fact_views(final(work)@),
                ))
                &&& step ==> measure_lt(fact_views(final(work)@), fact_views(old(work)@))
            },
            Err(e) => e == GraphError::Conflict || e == GraphError::RankMismatch,
        }),
{
    let ghost w0 = fact_views(work@);
    match c {
        Rule::TypeEq { a, b } => {
            let x = work[*a].datum_type;
            let y = work[*b].datum_type;
            let m = match x.meet(&y) {
                Err(e) => {
                    return Err(e);
                },
                Ok(m) => m,
            };
            let mut step = false;
            if !factoid_dt_eq(&x, &m) {
                let ghost before = fact_views(work@);
                work[*a].datum_type = m;
                proof {
                    assert(fact_views(work@) =~= before.update(*a as int, work@[*a as int]@));
                    assert(fact_anys(work@[*a as int]@) + 1 == fact_anys(before[*a as int]));
                    lemma_measure_step(before, fact_views(work@), *a as int);
                }
                step = true;
            }
            if !factoid_dt_eq(&y, &m) {
                let ghost before = fact_views(work@);
                work[*b].datum_type = m;
                proof {
                    assert(fact_views(work@) =~= before.update(*b as int, work@[*b as int]@));
                    assert(fact_anys(work@[*b as int]@) + 1 == fact_anys(before[*b as int]));
                    lemma_measure_step(before, fact_views(work@), *b as int);
                    lemma_measure_le_trans(fact_views(work@), before, w0);
                }
                step = true;
            }
            proof {
                if !step {
                    assert(x == m && y == m);
                    assert(fact_views(work@)[*a as int].datum_type == fact_views(
                        work@,
                    )[*b as int].datum_type);
                }
            }
            Ok(step)
        },
        Rule::TypeIs { a, dt } => {
            let x = work[*a].datum_type;
            let m = match x.meet(&Factoid::Only(*dt)) {
                Err(e) => {
                    return Err(e);
                },
                Ok(m) => m,
            };
            let mut step = false;
            if !factoid_dt_eq(&x, &m) {
                let ghost before = fact_views(work@);
                work[*a].datum_type = m;
                proof {
                    assert(fact_views(work@) =~= before.update(*a as int, work@[*a as int]@));
                    assert(fact_anys(work@[*a as int]@) + 1 == fact_anys(before[*a as int]));
                    lemma_measure_step(before, fact_views(work@), *a as int);
                }
                step = true;
            }
            Ok(step)
        },
        Rule::RankEq { a, b } => {
            let x = work[*a].shape.rank();
            let y = work[*b].shape.rank();
            let m = match x.meet(&y) {
                Err(e) => {
                    return Err(e);
                },
                Ok(m) => m,
            };
            let mut step = false;
            match m {
                Factoid::Any => {},
                Factoid::Only(rank) => {
                    let ghost before = fact_views(work@);
                    let ch = set_rank(&mut work[*a], rank);
                    proof {
                        if ch {
                            assert(fact_views(work@) =~= before.update(
                                *a as int,
                                work@[*a as int]@,
                            ));
                            assert(fact_views(work@)[*a as int] == work@[*a as int]@);
                            assert(before[*a as int].shape is Open);
                            assert(work@[*a as int]@.shape is Closed);
                            lemma_measure_step(before, fact_views(work@), *a as int);
                        } else {
                            assert(fact_views(work@) =~= before);
                        }
                    }
                    if ch {
                        step = true;
                    }
                    let ghost mid = fact_views(work@);
                    let ch2 = set_rank(&mut work[*b], rank);
                    proof {
                        if ch2 {
                            assert(fact_views(work@) =~= mid.update(*b as int, work@[*b as int]@));
                            assert(fact_views(work@)[*b as int] == work@[*b as int]@);
                            assert(mid[*b as int].shape is Open);
                            assert(work@[*b as int]@.shape is Closed);
                            lemma_measure_step(mid, fact_views(work@), *b as int);
                        } else {
                            assert(fact_views(work@) =~= mid);
                        }
                        lemma_measure_le_trans(fact_views(work@), mid, w0);
                    }
                    if ch2 {
                        step = true;
                    }
                },
            }
            proof {
                if !step {
                    assert(rank_of(work@[*a as int]@) == rank_of(work@[*b as int]@));
                }
            }
            Ok(step)
        },
        Rule::RankIs { a, rank } => {
            let x = work[*a].shape.rank();
            let m = match x.meet(&Factoid::Only(*rank)) {
                Err(e) => {
                    return Err(e);
                },
                Ok(m) => m,
            };
            let mut step = false;
            match m {
                Factoid::Any => {},
                Factoid::Only(r2) => {
                    let ghost before = fact_views(work@);
                    let ch = set_rank(&mut work[*a], r2);
                    proof {
                        if ch {
                            assert(fact_views(work@) =~= before.update(
                                *a as int,
                                work@[*a as int]@,
                            ));
                            assert(fact_views(work@)[*a as int] == work@[*a as int]@);
                            assert(before[*a as int].shape is Open);
                            assert(work@[*a as int]@.shape is Closed);
                            lemma_measure_step(before, fact_views(work@), *a as int);
                        } else {
                            assert(fact_views(work@) =~= before);
                        }
                    }
                    if ch {
                        step = true;
                    }
                },
            }
            proof {
                if !step {
                    assert(rank_of(work@[*a as int]@) == Factoid::<int>::Only(*rank as int));
                }
            }
            Ok(step)
        },
        Rule::DimEq { a, axis_a, b, axis_b } => {
            let x = match read_dim(&work[*a], *axis_a) {
                Err(e) => {
                    return Err(e);
                },
                Ok(x) => x,
            };
            let y = match read_dim(&work[*b], *axis_b) {
                Err(e) => {
                    return Err(e);
                },
                Ok(y) => y,
            };
            match (x, y) {
                (Some(x), Some(y)) => {
                    let m = match x.meet(&y) {
                        Err(e) => {
                            return Err(e);
                        },
                        Ok(m) => m,
                    };
                    let mut step = false;
                    if !factoid_dim_eq(&x, &m) {
                        let ghost before = fact_views(work@);
                        set_dim(&mut work[*a], *axis_a, m);
                        proof {
                            assert(fact_views(work@) =~= before.update(
                                *a as int,
                                work@[*a as int]@,
                            ));
                            lemma_anys_dims_update(
                                before[*a as int].shape->Closed_0,
                                *axis_a as int,
                                m,
                            );
                            assert(fact_anys(work@[*a as int]@) + 1 == fact_anys(
                                before[*a as int],
                            ));
                            lemma_measure_step(before, fact_views(work@), *a as int);
                        }
                        step = true;
                    }
                    if !factoid_dim_eq(&y, &m) {
                        let ghost before = fact_views(work@);
                        set_dim(&mut work[*b], *axis_b, m);
                        proof {
                            assert(fact_views(work@) =~= before.update(
                                *b as int,
                                work@[*b as int]@,
                            ));
                            lemma_anys_dims_update(
                                before[*b as int].shape->Closed_0,
                                *axis_b as int,
                                m,
                            );
                            assert(fact_anys(work@[*b as int]@) + 1 == fact_anys(
                                before[*b as int],
                            ));
                            lemma_measure_step(before, fact_views(work@), *b as int);
                            lemma_measure_le_trans(fact_views(work@), before, w0);
                        }
                        step = true;
                    }
                    proof {
                        if !step {
                            assert(work@[*a as int]@.shape->Closed_0[*axis_a as int] == work@[
                                *b as int]@.shape->Closed_0[*axis_b as int]);
                        }
                    }
                    Ok(step)
                },
                _ => Ok(false),
            }
        },
        Rule::DimIs { a, axis, dim } => {
            let x = match read_dim(&work[*a], *axis) {
                Err(e) => {
                    return Err(e);
                },
                Ok(x) => x,
            };
            match x {
                Some(x) => {
                    let m = match x.meet(&Factoid::Only(*dim)) {
                        Err(e) => {
                            return Err(e);
                        },
                        Ok(m) => m,
                    };
                    let mut step = false;
                    if !factoid_dim_eq(&x, &m) {
                        let ghost before = fact_views(work@);
                        set_dim(&mut work[*a], *axis, m);
                        proof {
                            assert(fact_views(work@) =~= before.update(
                                *a as int,
                                work@[*a as int]@,
                            ));
                            lemma_anys_dims_update(
                                before[*a as int].shape->Closed_0,
                                *axis as int,
                                m,
                            );
                            assert(fact_anys(work@[*a as int]@) + 1 == fact_anys(
                                before[*a as int],
                            ));
                            lemma_measure_step(before, fact_views(work@), *a as int);
                        }
                        step = true;
                    }
                    proof {
                        if !step {
                            assert(work@[*a as int]@.shape->Closed_0[*axis as int]
                                == Factoid::Only(*dim));
                        }
                    }
                    Ok(step)
                },
                None => Ok(false),
            }
        },
        Rule::ValueEq { a, b } => {
            let conflict = match (&work[*a].value, &work[*b].value) {
                (Factoid::Only(x), Factoid::Only(y)) => !x.same_value(y),
                _ => false,
            };
            if conflict {
                return Err(GraphError::Conflict);
            }
            let a_known = work[*a].value.is_concrete();
            let b_known = work[*b].value.is_concrete();
            if a_known && !b_known {
                let t = match &work[*a].value {
                    Factoid::Only(t) => t.duplicate(),
                    Factoid::Any => vstd::pervasive::unreached(),
                };
                let ghost before = fact_views(work@);
                work[*b].value = Factoid::Only(t);
                proof {
                    assert(fact_views(work@) =~= before.update(*b as int, work@[*b as int]@));
                    assert(fact_anys(work@[*b as int]@) + 1 == fact_anys(before[*b as int]));
                    lemma_measure_step(before, fact_views(work@), *b as int);
                }
                Ok(true)
            } else if b_known && !a_known {
                let t = match &work[*b].value {
                    Factoid::Only(t) => t.duplicate(),
                    Factoid::Any => vstd::pervasive::unreached(),
                };
                let ghost before = fact_views(work@);
                work[*a].value = Factoid::Only(t);
                proof {
                    assert(fact_views(work@) =~= before.update(*a as int, work@[*a as int]@));
                    assert(fact_anys(work@[*a as int]@) + 1 == fact_anys(before[*a as int]));
                    lemma_measure_step(before, fact_views(work@), *a as int);
                }
                Ok(true)
            } else {
                proof {
                    assert(value_view(work@[*a as int].value) == value_view(
                        work@[*b as int].value,
                    ));
                }
                Ok(false)
            }
        },
    }
}

/// Whether two datum-type factoids are equal.
fn factoid_dt_eq(a: &Factoid<DatumType>, b: &Factoid<DatumType>) -> (r: bool)
    ensures
        r == (*a == *b),
{
    match (a, b) {
        (Factoid::Any, Factoid::Any) => true,
        (Factoid::Only(x), Factoid::Only(y)) => x == y,
        _ => false,
    }
}

/// Whether two dimension factoids are equal.
fn factoid_dim_eq(a: &Factoid<TDim>, b: &Factoid<TDim>) -> (r: bool)
    ensures
        r == (*a == *b),
{
    match (a, b) {
        (Factoid::Any, Factoid::Any) => true,
        (Factoid::Only(x), Factoid::Only(y)) => x == y,
        _ => false,
    }
}

/// Force a fact's rank: an open shape closes to that many unknown axes, and
/// a closed shape of that rank is left alone. Returns whether the fact
/// changed.
fn set_rank(f: &mut InferenceFact, rank: usize) -> (r: bool)
    requires
        old(f).shape@ is Open || old(f).shape@->Closed_0.len() == rank,
    ensures
        fact_refines(final(f)@, old(f)@),
        rank_of(final(f)@) == Factoid::<int>::Only(rank as int),
        final(f)@.datum_type == old(f)@.datum_type,
        final(f)@.value == old(f)@.value,
        r == (final(f)@ != old(f)@),
        !r ==> final(f)@ == old(f)@,
        r ==> old(f)@.shape is Open && final(f)@.shape is Closed,
{
    match &f.shape {
        ShapeFactoid::Closed(_) => false,
        ShapeFactoid::Open => {
            let mut dims: Vec<Factoid<TDim>> = Vec::new();
            let mut i: usize = 0;
            while i < rank
                invariant
                    i <= rank,
                    dims@.len() == i,
                    forall|k: int| 0 <= k < i ==> dims@[k] == Factoid::<TDim>::Any,
                decreases rank - i,
            {
                dims.push(Factoid::Any);
                i = i + 1;
            }
            f.shape = ShapeFactoid::Closed(dims);
            true
        },
    }
}

/// Read a fact's dimension factoid at an axis: still unknowable while the
/// rank is open, and an error past the known rank.
fn read_dim(f: &InferenceFact, axis: usize) -> (r: Result<Option<Factoid<TDim>>, GraphError>)
    ensures
        (match r {
            Ok(None) => f.shape@ is Open,
            Ok(Some(d)) => f.shape@ is Closed && axis < f.shape@->Closed_0.len() && d
                == f.shape@->Closed_0[axis as int],
            Err(e) => e == GraphError::RankMismatch && f.shape@ is Closed && axis
                >= f.shape@->Closed_0.len(),
        }),
{
    match &f.shape {
        ShapeFactoid::Open => Ok(None),
        ShapeFactoid::Closed(dims) => {
            if axis >= dims.len() {
                Err(GraphError::RankMismatch)
            } else {
                Ok(Some(dims[axis]))
            }
        },
    }
}

/// Write a fact's dimension factoid at an axis of its closed shape.
fn set_dim(f: &mut InferenceFact, axis: usize, d: Factoid<TDim>)
    requires
        old(f).shape@ is Closed,
        axis < old(f).shape@->Closed_0.len(),
        factoid_refines(d, old(f).shape@->Closed_0[axis as int]),
    ensures
        fact_refines(final(f)@, old(f)@),
        final(f)@.datum_type == old(f)@.datum_type,
        final(f)@.value == old(f)@.value,
        final(f).shape@ is Closed,
        final(f).shape@->Closed_0 == old(f).shape@->Closed_0.update(axis as int, d),
{
    match &mut f.shape {
        ShapeFactoid::Open => {},
        ShapeFactoid::Closed(dims) => {
            dims[axis] = d;
        },
    }
}

/// The constraints an operation declares over its input and output facts,
/// the workspace holding the inputs first and the output at `n_inputs`. A
/// constant pins its output's type, rank and every dimension; elementwise
/// addition relates the datum types; a delay carries type and rank through;
/// sources and placeholders constrain nothing.
pub open spec fn spec_op_rules(op: crate::ops::Op, n_inputs: usize) -> Seq<Rule> {
    match op {
        crate::ops::Op::Const(c) => seq![
            Rule::TypeIs { a: n_inputs, dt: c.0.dt },
            Rule::RankIs { a: n_inputs, rank: c.0.shape@.len() as usize },
        ] + Seq::new(
            c.0.shape@.len(),
            |ax: int| Rule::DimIs {
                a: n_inputs,
                axis: ax as usize,
                dim: TDim::Fixed(c.0.shape@[ax]),
            },
        ),
        crate::ops::Op::Add => if n_inputs == 2 {
            seq![
                Rule::TypeEq { a: 0, b: 1 },
                Rule::TypeEq { a: 0, b: n_inputs },
            ]
        } else {
            Seq::empty()
        },
        crate::ops::Op::Delay(_) => if n_inputs == 1 {
            seq![
                Rule::TypeEq { a: 0, b: n_inputs },
                Rule::RankEq { a: 0, b: n_inputs },
            ]
        } else {
            Seq::empty()
        },
        _ => Seq::empty(),
    }
}

impl crate::ops::Op {
    /// Register with the solver the constraints this operation declares
    /// between its inputs and its output.
    pub fn declare_rules(&self, s: &mut Solver, n_inputs: usize)
        ensures
            final(s).rules@ == old(s).rules@ + spec_op_rules(*self, n_inputs),
    {
        let ghost rules0 = s.rules@;
        match self {
            crate::ops::Op::Const(c) => {
                s.equals(Rule::TypeIs { a: n_inputs, dt: c.0.dt });
                s.equals(Rule::RankIs { a: n_inputs, rank: c.0.shape.len() });
                let mut ax: usize = 0;
                while ax < c.0.shape.len()
                    invariant
                        ax <= c.0.shape@.len(),
                        s.rules@ == rules0 + spec_op_rules(*self, n_inputs).take(2 + ax),
                        spec_op_rules(*self, n_inputs).len() == 2 + c.0.shape@.len(),
                        forall|k: int|
                            0 <= k < c.0.shape@.len() ==> spec_op_rules(*self, n_inputs)[2 + k]
                                == (Rule::DimIs {
                                a: n_inputs,
                                axis: k as usize,
                                dim: TDim::Fixed(c.0.shape@[k]),
                            }),
                    decreases c.0.shape@.len() - ax,
                {
                    s.equals(
                        Rule::DimIs { a: n_inputs, axis: ax, dim: TDim::Fixed(c.0.shape[ax]) },
                    );
                    proof {
                        assert(s.rules@ =~= rules0 + spec_op_rules(*self, n_inputs).take(
                            2 + ax + 1,
                        ));
                    }
                    ax = ax + 1;
                }
                proof {
                    assert(spec_op_rules(*self, n_inputs).take(
                        2 + c.0.shape@.len() as int,
                    ) =~= spec_op_rules(*self, n_inputs));
                }
            },
            crate::ops::Op::Add => {
                if n_inputs == 2 {
                    s.equals(Rule::TypeEq { a: 0, b: 1 });
                    s.equals(Rule::TypeEq { a: 0, b: n_inputs });
                    proof {
                        assert(s.rules@ =~= rules0 + spec_op_rules(*self, n_inputs));
                    }
                } else {
                    proof {
                        assert(s.rules@ =~= rules0 + spec_op_rules(*self, n_inputs));
                    }
                }
            },
            crate::ops::Op::Delay(_) => {
                if n_inputs == 1 {
                    s.equals(Rule::TypeEq { a: 0, b: n_inputs });
                    s.equals(Rule::RankEq { a: 0, b: n_inputs });
                    proof {
                        assert(s.rules@ =~= rules0 + spec_op_rules(*self, n_inputs));
                    }
                } else {
                    proof {
                        assert(s.rules@ =~= rules0 + spec_op_rules(*self, n_inputs));
                    }
                }
            },
            _ => {
                proof {
                    assert(s.rules@ =~= rules0 + spec_op_rules(*self, n_inputs));
                }
            },
        }
    }
}

} // verus!
