//! What is known about a tensor flowing along an edge. During inference a
//! fact is partial knowledge (`InferenceFact`); after inference it is frozen
//! into a fully resolved `TypedFact` whose dimensions are concrete or
//! symbolic.

use vstd::prelude::*;

use crate::dim::TDim;
use crate::factoid::Factoid;
use crate::tensor::{DatumType, TView, Tensor};

verus! {

/// Partial knowledge about one dimension.
pub type DimFact = Factoid<TDim>;

/// Partial knowledge about a shape: either the axis count itself is unknown
/// (`Open`), or it is known and each axis carries its own dimension factoid.
#[derive(Debug, PartialEq)]
pub enum ShapeFactoid {
    Open,
    Closed(Vec<DimFact>),
}

/// The mathematical value of a shape factoid.
pub ghost enum ShapeView {
    Open,
    Closed(Seq<DimFact>),
}

impl View for ShapeFactoid {
    type V = ShapeView;

    open spec fn view(&self) -> ShapeView {
        match self {
            ShapeFactoid::Open => ShapeView::Open,
            ShapeFactoid::Closed(dims) => ShapeView::Closed(dims@),
        }
    }
}

impl ShapeFactoid {
    /// A shape of known rank, one factoid per axis.
    pub fn closed(dims: Vec<DimFact>) -> (r: ShapeFactoid)
        ensures
            r@ == ShapeView::Closed(dims@),
    {
        ShapeFactoid::Closed(dims)
    }

    /// A shape about which nothing is known, not even the axis count.
    pub fn fully_open() -> (r: ShapeFactoid)
        ensures
            r@ == ShapeView::Open,
    {
        ShapeFactoid::Open
    }

    pub open spec fn spec_is_open(self) -> bool {
        self is Open
    }

    pub fn is_open(&self) -> (r: bool)
        ensures
            r == self.spec_is_open(),
    {
        match self {
            ShapeFactoid::Open => true,
            ShapeFactoid::Closed(_) => false,
        }
    }

    /// What is known about the axis count.
    pub open spec fn spec_rank(self) -> Factoid<usize> {
        match self {
            ShapeFactoid::Open => Factoid::Any,
            ShapeFactoid::Closed(dims) => Factoid::Only(dims.len()),
        }
    }

    pub fn rank(&self) -> (r: Factoid<usize>)
        ensures
            r == self.spec_rank(),
    {
        match self {
            ShapeFactoid::Open => Factoid::Any,
            ShapeFactoid::Closed(dims) => Factoid::Only(dims.len()),
        }
    }

    /// The dimension factoids of a closed shape.
    pub open spec fn spec_dims(self) -> Seq<DimFact>
        recommends
            !self.spec_is_open(),
    {
        self->Closed_0@
    }

    /// An exact copy.
    pub fn duplicate(&self) -> (r: ShapeFactoid)
        ensures
            r@ == self@,
    {
        match self {
            ShapeFactoid::Open => ShapeFactoid::Open,
            ShapeFactoid::Closed(dims) => {
                let mut out: Vec<DimFact> = Vec::new();
                let mut i: usize = 0;
                while i < dims.len()
                    invariant
                        i <= dims.len(),
                        out@ == dims@.take(i as int),
                    decreases dims.len() - i,
                {
                    out.push(dims[i]);
                    i = i + 1;
                }
                proof {
                    assert(out@ =~= dims@);
                }
                ShapeFactoid::Closed(out)
            },
        }
    }
}

/// Partial knowledge about a tensor: its datum type, its shape, and (when
/// known) its whole value. This is the fact the inference pass narrows.
#[derive(Debug, PartialEq)]
pub struct InferenceFact {
    pub datum_type: Factoid<DatumType>,
    pub shape: ShapeFactoid,
    pub value: Factoid<Tensor>,
}

/// The mathematical value of an inference fact.
pub ghost struct IFactView {
    pub datum_type: Factoid<DatumType>,
    pub shape: ShapeView,
    pub value: Factoid<TView>,
}

impl View for InferenceFact {
    type V = IFactView;

    open spec fn view(&self) -> IFactView {
        IFactView {
            datum_type: self.datum_type,
            shape: self.shape@,
            value: crate::tensor::value_view(self.value),
        }
    }
}

impl InferenceFact {
    /// A fact about which nothing is known.
    pub fn new_any() -> (r: InferenceFact)
        ensures
            r@.datum_type == Factoid::<DatumType>::Any,
            r@.shape == ShapeView::Open,
            r@.value == Factoid::<TView>::Any,
    {
        InferenceFact {
            datum_type: Factoid::Any,
            shape: ShapeFactoid::Open,
            value: Factoid::Any,
        }
    }

    /// Everything a concrete tensor tells: its type, its exact shape, and
    /// itself as the value.
    pub fn from_tensor(t: Tensor) -> (r: InferenceFact)
        ensures
            r@ == spec_fact_of_tensor(t@),
    {
        let mut dims: Vec<DimFact> = Vec::new();
        let mut i: usize = 0;
        while i < t.shape.len()
            invariant
                i <= t.shape.len(),
                dims@.len() == i,
                forall|k: int| 0 <= k < i ==> dims@[k] == Factoid::Only(TDim::Fixed(t.shape@[k])),
            decreases t.shape.len() - i,
        {
            dims.push(Factoid::Only(TDim::Fixed(t.shape[i])));
            i = i + 1;
        }
        let r = InferenceFact {
            datum_type: Factoid::Only(t.dt),
            shape: ShapeFactoid::Closed(dims),
            value: Factoid::Only(t),
        };
        proof {
            assert(r@.shape->Closed_0 =~= spec_fact_of_tensor(r.value->Only_0@).shape->Closed_0);
        }
        r
    }
}

/// Whether an inference fact is fully narrowed: its datum type, its rank
/// and every one of its dimensions are known.
pub open spec fn spec_resolved(f: IFactView) -> bool {
    &&& f.datum_type is Only
    &&& f.shape is Closed
    &&& forall|k: int| 0 <= k < f.shape->Closed_0.len() ==> (#[trigger] f.shape->Closed_0[k]) is Only
}

impl InferenceFact {
    /// Freeze a fully narrowed fact into a resolved one: defined exactly
    /// when the datum type, the rank and every dimension are known.
    pub fn freeze(&self) -> (r: Option<TypedFact>)
        ensures
            r is Some <==> spec_resolved(self@),
            r is Some ==> r->0@ == (TFactView {
                datum_type: self@.datum_type->Only_0,
                shape: Seq::new(
                    self@.shape->Closed_0.len(),
                    |k: int| self@.shape->Closed_0[k]->Only_0,
                ),
            }),
    {
        let datum_type = match &self.datum_type {
            Factoid::Any => {
                return None;
            },
            Factoid::Only(dt) => *dt,
        };
        let dims = match &self.shape {
            ShapeFactoid::Open => {
                return None;
            },
            ShapeFactoid::Closed(dims) => dims,
        };
        let mut shape: Vec<TDim> = Vec::new();
        let mut i: usize = 0;
        while i < dims.len()
            invariant
                i <= dims@.len(),
                self.shape@ is Closed,
                dims@ == self.shape@->Closed_0,
                shape@.len() == i,
                forall|k: int| 0 <= k < i ==> (#[trigger] dims@[k]) is Only,
                forall|k: int| 0 <= k < i ==> shape@[k] == dims@[k]->Only_0,
            decreases dims@.len() - i,
        {
            match &dims[i] {
                Factoid::Any => {
                    proof {
                        assert(!((self@.shape->Closed_0[i as int]) is Only));
                    }
                    return None;
                },
                Factoid::Only(d) => {
                    shape.push(*d);
                },
            }
            i = i + 1;
        }
        let r = TypedFact { datum_type, shape };
        proof {
            assert(r@.shape =~= Seq::new(
                self@.shape->Closed_0.len(),
                |k: int| self@.shape->Closed_0[k]->Only_0,
            ));
        }
        Some(r)
    }
}

/// The fact a concrete tensor determines completely.
pub open spec fn spec_fact_of_tensor(t: TView) -> IFactView {
    IFactView {
        datum_type: Factoid::Only(t.dt),
        shape: ShapeView::Closed(Seq::new(t.shape.len(), |k: int| Factoid::Only(TDim::Fixed(t.shape[k])))),
        value: Factoid::Only(t),
    }
}

/// A fully resolved fact: the output of inference, consumed by execution and
/// by translation. Dimensions are concrete or symbolic, never unknown.
#[derive(Debug, PartialEq)]
pub struct TypedFact {
    pub datum_type: DatumType,
    pub shape: Vec<TDim>,
}

/// The mathematical value of a typed fact.
pub ghost struct TFactView {
    pub datum_type: DatumType,
    pub shape: Seq<TDim>,
}

impl View for TypedFact {
    type V = TFactView;

    open spec fn view(&self) -> TFactView {
        TFactView { datum_type: self.datum_type, shape: self.shape@ }
    }
}

impl TypedFact {
    /// A fact from a datum type and a shape.
    pub fn dt_shape(datum_type: DatumType, shape: Vec<TDim>) -> (r: TypedFact)
        ensures
            r@ == (TFactView { datum_type, shape: shape@ }),
    {
        TypedFact { datum_type, shape }
    }

    /// An exact copy.
    pub fn duplicate(&self) -> (r: TypedFact)
        ensures
            r@ == self@,
    {
        TypedFact { datum_type: self.datum_type, shape: copy_dims(&self.shape) }
    }
}

/// An exact copy of a dimension list.
pub fn copy_dims(v: &Vec<TDim>) -> (r: Vec<TDim>)
    ensures
        r@ == v@,
{
    let mut out: Vec<TDim> = Vec::new();
    let mut i: usize = 0;
    while i < v.len()
        invariant
            i <= v.len(),
            out@ == v@.take(i as int),
        decreases v.len() - i,
    {
        out.push(v[i]);
        i = i + 1;
    }
    proof {
        assert(out@ =~= v@);
    }
    out
}

} // verus!
