//! The partial-knowledge lattice. A factoid is either `Any` (nothing known)
//! or `Only(v)` (known to be exactly `v`). The meet of two factoids combines
//! what both know; two different concrete values are conflicting knowledge,
//! which is a hard failure rather than a narrowing.

use vstd::prelude::*;

use crate::dim::TDim;
use crate::error::GraphError;

verus! {

/// Partial knowledge about a value of type `T`: nothing, or exactly `v`.
#[derive(Clone, Copy, PartialEq, Eq, Structural, Debug)]
pub enum Factoid<T> {
    Any,
    Only(T),
}

impl<T> Factoid<T> {
    pub open spec fn spec_is_concrete(self) -> bool {
        self is Only
    }

    pub open spec fn spec_concretize(self) -> Option<T> {
        match self {
            Factoid::Any => None,
            Factoid::Only(v) => Some(v),
        }
    }

    /// The value a concrete factoid holds.
    pub open spec fn spec_unwrap(self) -> T
        recommends
            self.spec_is_concrete(),
    {
        self->Only_0
    }

    pub fn is_concrete(&self) -> (r: bool)
        ensures
            r == self.spec_is_concrete(),
    {
        match self {
            Factoid::Any => false,
            Factoid::Only(_) => true,
        }
    }
}

/// The meet of the knowledge lattice: `Any` is neutral, and two concrete
/// values agree or conflict. `None` is the conflict case.
pub open spec fn spec_meet<T>(a: Factoid<T>, b: Factoid<T>) -> Option<Factoid<T>> {
    match (a, b) {
        (Factoid::Any, x) => Some(x),
        (x, Factoid::Any) => Some(x),
        (Factoid::Only(x), Factoid::Only(y)) => if x == y {
            Some(Factoid::Only(x))
        } else {
            None
        },
    }
}

/// The meet is commutative wherever it is defined.
pub proof fn lemma_meet_commutative<T>(a: Factoid<T>, b: Factoid<T>)
    ensures
        spec_meet(a, b) == spec_meet(b, a),
{
}

/// The meet is idempotent: a factoid never conflicts with itself.
pub proof fn lemma_meet_idempotent<T>(a: Factoid<T>)
    ensures
        spec_meet(a, a) == Some(a),
{
}

/// The meet fails exactly when both sides are concrete and disagree.
pub proof fn lemma_meet_conflict<T>(a: Factoid<T>, b: Factoid<T>)
    ensures
        spec_meet(a, b) is None <==> (a is Only && b is Only && a != b),
{
}

/// The meet is associative: combining knowledge in any grouping either fails
/// both ways or yields the same factoid.
pub proof fn lemma_meet_associative<T>(a: Factoid<T>, b: Factoid<T>, c: Factoid<T>)
    ensures
        (match (spec_meet(a, b), spec_meet(b, c)) {
            (Some(ab), Some(bc)) => spec_meet(ab, c) == spec_meet(a, bc),
            _ => true,
        }),
{
}

impl Factoid<TDim> {
    /// Combine two dimension factoids; conflicting concrete dimensions fail.
    pub fn meet(&self, other: &Self) -> (r: Result<Self, GraphError>)
        ensures
            (match spec_meet(*self, *other) {
                Some(m) => r == Ok::<Self, GraphError>(m),
                None => r == Err::<Self, GraphError>(GraphError::Conflict),
            }),
    {
        match (self, other) {
            (Factoid::Any, x) => Ok(*x),
            (x, Factoid::Any) => Ok(*x),
            (Factoid::Only(x), Factoid::Only(y)) => if x == y {
                Ok(Factoid::Only(*x))
            } else {
                Err(GraphError::Conflict)
            },
        }
    }
}

impl Factoid<usize> {
    /// Combine two rank factoids; conflicting concrete ranks fail.
    pub fn meet(&self, other: &Self) -> (r: Result<Self, GraphError>)
        ensures
            (match spec_meet(*self, *other) {
                Some(m) => r == Ok::<Self, GraphError>(m),
                None => r == Err::<Self, GraphError>(GraphError::Conflict),
            }),
    {
        match (self, other) {
            (Factoid::Any, x) => Ok(*x),
            (x, Factoid::Any) => Ok(*x),
            (Factoid::Only(x), Factoid::Only(y)) => if x == y {
                Ok(Factoid::Only(*x))
            } else {
                Err(GraphError::Conflict)
            },
        }
    }
}

} // verus!
