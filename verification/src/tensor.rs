//! A minimal tensor value: a datum type tag, a concrete shape, and flat
//! integer contents. Numeric kernels are outside this library's scope; the
//! inference and translation passes only carry tensors around, compare them,
//! and evaluate the handful of built-in operations on them.

use vstd::prelude::*;

use crate::error::GraphError;
use crate::factoid::{spec_meet, Factoid};

verus! {

/// The element type of a tensor. Only the tag matters to the passes here.
#[derive(Clone, Copy, PartialEq, Eq, Structural, Debug)]
pub enum DatumType {
    Bool,
    I64,
    F32,
}

/// A concrete tensor value: shape and flat contents in row-major order.
#[derive(Debug, PartialEq)]
pub struct Tensor {
    pub dt: DatumType,
    pub shape: Vec<usize>,
    pub data: Vec<i64>,
}

/// The mathematical value of a tensor.
pub ghost struct TView {
    pub dt: DatumType,
    pub shape: Seq<usize>,
    pub data: Seq<i64>,
}

impl View for Tensor {
    type V = TView;

    open spec fn view(&self) -> TView {
        TView { dt: self.dt, shape: self.shape@, data: self.data@ }
    }
}

/// The number of elements a shape calls for.
pub open spec fn elem_count(shape: Seq<usize>) -> nat
    decreases shape.len(),
{
    if shape.len() == 0 {
        1nat
    } else {
        (shape[0] * elem_count(shape.skip(1))) as nat
    }
}

impl Tensor {
    /// A tensor is well formed when its contents fill its shape exactly.
    pub open spec fn wf(self) -> bool {
        self.data@.len() == elem_count(self.shape@)
    }

    /// An exact copy, element for element.
    pub fn duplicate(&self) -> (r: Tensor)
        ensures
            r@ == self@,
    {
        let mut shape: Vec<usize> = Vec::new();
        let mut i: usize = 0;
        while i < self.shape.len()
            invariant
                i <= self.shape.len(),
                shape@ == self.shape@.take(i as int),
            decreases self.shape.len() - i,
        {
            shape.push(self.shape[i]);
            i = i + 1;
        }
        let mut data: Vec<i64> = Vec::new();
        let mut j: usize = 0;
        while j < self.data.len()
            invariant
                j <= self.data.len(),
                data@ == self.data@.take(j as int),
            decreases self.data.len() - j,
        {
            data.push(self.data[j]);
            j = j + 1;
        }
        proof {
            assert(shape@ =~= self.shape@);
            assert(data@ =~= self.data@);
        }
        let r = Tensor { dt: self.dt, shape, data };
        proof {
            assert(r@ =~= self@);
        }
        r
    }

    /// Whether two tensors hold the same value.
    pub fn same_value(&self, other: &Tensor) -> (r: bool)
        ensures
            r == (self@ == other@),
    {
        if self.dt != other.dt {
            proof {
                assert(self@ != other@);
            }
            return false;
        }
        if self.shape.len() != other.shape.len() {
            proof {
                assert(self@.shape != other@.shape);
            }
            return false;
        }
        let mut i: usize = 0;
        while i < self.shape.len()
            invariant
                i <= self.shape.len(),
                self.shape.len() == other.shape.len(),
                forall|k: int| 0 <= k < i ==> self.shape@[k] == other.shape@[k],
            decreases self.shape.len() - i,
        {
            if self.shape[i] != other.shape[i] {
                proof {
                    assert(self@.shape != other@.shape);
                }
                return false;
            }
            i = i + 1;
        }
        if self.data.len() != other.data.len() {
            proof {
                assert(self@.data != other@.data);
            }
            return false;
        }
        let mut j: usize = 0;
        while j < self.data.len()
            invariant
                j <= self.data.len(),
                self.data.len() == other.data.len(),
                forall|k: int| 0 <= k < j ==> self.data@[k] == other.data@[k],
            decreases self.data.len() - j,
        {
            if self.data[j] != other.data[j] {
                proof {
                    assert(self@.data != other@.data);
                }
                return false;
            }
            j = j + 1;
        }
        proof {
            assert(self.shape@ =~= other.shape@);
            assert(self.data@ =~= other.data@);
            assert(self@ =~= other@);
        }
        true
    }
}

/// The mathematical value of a tensor factoid.
pub open spec fn value_view(f: Factoid<Tensor>) -> Factoid<TView> {
    match f {
        Factoid::Any => Factoid::Any,
        Factoid::Only(t) => Factoid::Only(t@),
    }
}

impl Factoid<DatumType> {
    /// Combine two datum-type factoids; conflicting concrete types fail.
    pub fn meet(&self, other: &Self) -> (r: Result<Self, GraphError>)
        ensures
            (match spec_meet(*self, *other) {
                Some(m) => r == Ok::<Self, GraphError>(m),
                None => r == Err::<Self, GraphError>(GraphError::Conflict),
            }),
    {
        match (self, other) {
            (Factoid::Any, x) => Ok(*x),
            (x, Factoid::Any) => Ok(*x),
            (Factoid::Only(x), Factoid::Only(y)) => if x == y {
                Ok(Factoid::Only(*x))
            } else {
                Err(GraphError::Conflict)
            },
        }
    }
}

impl Factoid<Tensor> {
    /// Combine two value factoids; two tensors conflict when their values
    /// differ. The result is stated over the tensors' mathematical values.
    pub fn meet(&self, other: &Self) -> (r: Result<Self, GraphError>)
        ensures
            (match spec_meet(value_view(*self), value_view(*other)) {
                Some(m) => r is Ok && value_view(r->Ok_0) == m,
                None => r == Err::<Self, GraphError>(GraphError::Conflict),
            }),
    {
        match (self, other) {
            (Factoid::Any, Factoid::Any) => Ok(Factoid::Any),
            (Factoid::Any, Factoid::Only(t)) => Ok(Factoid::Only(t.duplicate())),
            (Factoid::Only(t), Factoid::Any) => Ok(Factoid::Only(t.duplicate())),
            (Factoid::Only(x), Factoid::Only(y)) => if x.same_value(y) {
                Ok(Factoid::Only(x.duplicate()))
            } else {
                Err(GraphError::Conflict)
            },
        }
    }
}

} // verus!
