//! Pulsed facts: what is known about a tensor once its streaming axis is
//! processed in fixed-size chunks. A pulsed fact records the full pulse
//! shape, which axis is the pulsed one, the original unbounded length, and
//! the latency (in pulses) accumulated upstream of the outlet.

use vstd::prelude::*;

use crate::dim::{spec_stream_symbol, stream_symbol, TDim};
use crate::error::GraphError;
use crate::fact::{copy_dims, TFactView, TypedFact};
use crate::tensor::DatumType;

verus! {

/// How many axes of a shape mention the streaming symbol.
pub open spec fn count_stream(dims: Seq<TDim>) -> nat
    decreases dims.len(),
{
    if dims.len() == 0 {
        0nat
    } else {
        count_stream(dims.drop_last()) + (if dims.last().spec_has_symbol(spec_stream_symbol()) {
            1nat
        } else {
            0nat
        })
    }
}

/// The first axis that mentions the streaming symbol, if any.
pub open spec fn first_stream(dims: Seq<TDim>) -> Option<int>
    decreases dims.len(),
{
    if dims.len() == 0 {
        None
    } else {
        match first_stream(dims.drop_last()) {
            Some(k) => Some(k),
            None => if dims.last().spec_has_symbol(spec_stream_symbol()) {
                Some(dims.len() - 1)
            } else {
                None
            },
        }
    }
}

/// The streaming axis of a shape: defined exactly when one axis mentions the
/// streaming symbol, and then that axis together with its dimension.
pub open spec fn spec_stream_info(dims: Seq<TDim>) -> Option<(usize, TDim)> {
    if count_stream(dims) == 1 {
        Some(((first_stream(dims)->Some_0) as usize, dims[first_stream(dims)->Some_0]))
    } else {
        None
    }
}

/// A shape without streaming axes counts none and has no first one.
pub proof fn lemma_no_stream(dims: Seq<TDim>)
    requires
        forall|k: int|
            0 <= k < dims.len() ==> !(#[trigger] dims[k]).spec_has_symbol(spec_stream_symbol()),
    ensures
        count_stream(dims) == 0,
        first_stream(dims) is None,
    decreases dims.len(),
{
    if dims.len() > 0 {
        lemma_no_stream(dims.drop_last());
    }
}

/// A shape whose one streaming axis is known counts exactly it.
pub proof fn lemma_single_stream(dims: Seq<TDim>, axis: int)
    requires
        dims.len() <= usize::MAX,
        0 <= axis < dims.len(),
        dims[axis].spec_has_symbol(spec_stream_symbol()),
        forall|k: int|
            0 <= k < dims.len() && k != axis ==> !(#[trigger] dims[k]).spec_has_symbol(
                spec_stream_symbol(),
            ),
    ensures
        count_stream(dims) == 1,
        first_stream(dims) == Some(axis),
        spec_stream_info(dims) == Some((axis as usize, dims[axis])),
    decreases dims.len(),
{
    if axis == dims.len() - 1 {
        lemma_no_stream(dims.drop_last());
    } else {
        lemma_single_stream(dims.drop_last(), axis);
    }
}

/// The first streaming axis mentions the symbol.
pub proof fn lemma_first_stream_has(dims: Seq<TDim>)
    requires
        first_stream(dims) is Some,
    ensures
        0 <= first_stream(dims)->Some_0 < dims.len(),
        dims[first_stream(dims)->Some_0].spec_has_symbol(spec_stream_symbol()),
    decreases dims.len(),
{
    if first_stream(dims.drop_last()) is Some {
        lemma_first_stream_has(dims.drop_last());
    }
}

/// A shape with at least one streaming axis counts at least one.
pub proof fn lemma_count_at_least_one(dims: Seq<TDim>, i: int)
    requires
        0 <= i < dims.len(),
        dims[i].spec_has_symbol(spec_stream_symbol()),
    ensures
        count_stream(dims) >= 1,
    decreases dims.len(),
{
    if i < dims.len() - 1 {
        lemma_count_at_least_one(dims.drop_last(), i);
    }
}

/// A shape with two streaming axes counts at least two.
pub proof fn lemma_count_at_least_two(dims: Seq<TDim>, i: int, j: int)
    requires
        0 <= i < j < dims.len(),
        dims[i].spec_has_symbol(spec_stream_symbol()),
        dims[j].spec_has_symbol(spec_stream_symbol()),
    ensures
        count_stream(dims) >= 2,
    decreases dims.len(),
{
    if j == dims.len() - 1 {
        lemma_count_at_least_one(dims.drop_last(), i);
    } else {
        lemma_count_at_least_two(dims.drop_last(), i, j);
    }
}

/// A shape with a streaming axis has a first one.
pub proof fn lemma_count_pos_first_some(dims: Seq<TDim>)
    requires
        count_stream(dims) >= 1,
    ensures
        first_stream(dims) is Some,
    decreases dims.len(),
{
    if dims.len() > 0 && first_stream(dims.drop_last()) is None && !dims.last().spec_has_symbol(
        spec_stream_symbol(),
    ) {
        lemma_count_pos_first_some(dims.drop_last());
    }
}

/// When the streaming axis is defined, every other axis avoids the symbol.
pub proof fn lemma_stream_info_unique(dims: Seq<TDim>)
    requires
        dims.len() <= usize::MAX,
        spec_stream_info(dims) is Some,
    ensures
        ({
            let (axis, d) = spec_stream_info(dims)->Some_0;
            &&& 0 <= axis < dims.len()
            &&& dims[axis as int] == d
            &&& d.spec_has_symbol(spec_stream_symbol())
            &&& forall|k: int|
                0 <= k < dims.len() && k != axis ==> !(#[trigger] dims[k]).spec_has_symbol(
                    spec_stream_symbol(),
                )
        }),
{
    lemma_count_pos_first_some(dims);
    lemma_first_stream_has(dims);
    let axis = first_stream(dims)->Some_0;
    assert forall|k: int|
        0 <= k < dims.len() && k != axis implies !(#[trigger] dims[k]).spec_has_symbol(
        spec_stream_symbol(),
    ) by {
        if dims[k].spec_has_symbol(spec_stream_symbol()) {
            if k < axis {
                lemma_count_at_least_two(dims, k, axis);
            } else {
                lemma_count_at_least_two(dims, axis, k);
            }
        }
    }
}

/// Finding the streaming axis of a shape.
pub trait StreamFact {
    /// The streaming axis and its dimension, defined exactly when one axis
    /// carries the streaming symbol.
    spec fn spec_stream_info(&self) -> Option<(usize, TDim)>;

    fn stream_info(&self) -> (r: Option<(usize, TDim)>)
        ensures
            r == self.spec_stream_info(),
    ;
}

impl StreamFact for Vec<TDim> {
    open spec fn spec_stream_info(&self) -> Option<(usize, TDim)> {
        spec_stream_info(self@)
    }

    fn stream_info(&self) -> (r: Option<(usize, TDim)>) {
        let sym = stream_symbol();
        let mut count: usize = 0;
        let mut first: usize = 0;
        let mut i: usize = 0;
        while i < self.len()
            invariant
                i <= self.len(),
                sym == spec_stream_symbol(),
                count == count_stream(self@.take(i as int)),
                count >= 1 ==> first_stream(self@.take(i as int)) == Some(first as int),
                count == 0 ==> first_stream(self@.take(i as int)) is None,
                count <= i,
            decreases self.len() - i,
        {
            proof {
                assert(self@.take(i + 1).drop_last() =~= self@.take(i as int));
                assert(self@.take(i + 1).last() == self@[i as int]);
            }
            if self[i].has_symbol(sym) {
                if count == 0 {
                    first = i;
                }
                count = count + 1;
            }
            i = i + 1;
        }
        proof {
            assert(self@.take(self@.len() as int) =~= self@);
        }
        if count == 1 {
            proof {
                lemma_first_stream_has(self@);
                assert(first_stream(self@) == Some(first as int));
                assert(spec_stream_info(self@) == Some((first, self@[first as int])));
            }
            let r = Some((first, self[first]));
            proof {
                assert(r == self.spec_stream_info());
            }
            r
        } else {
            proof {
                assert(count_stream(self@) != 1);
                assert(spec_stream_info(self@) is None);
                assert(self.spec_stream_info() is None);
            }
            None
        }
    }
}

/// What is known about a tensor in a pulsed graph: the datum type, the full
/// pulse shape, which axis is the pulsed one, the unbounded length being
/// pulsed, and the latency accumulated upstream of this outlet.
#[derive(Debug, PartialEq)]
pub struct PulsedFact {
    pub datum_type: DatumType,
    pub shape: Vec<TDim>,
    pub axis: usize,
    pub dim: TDim,
    pub delay: usize,
}

/// The mathematical value of a pulsed fact.
pub ghost struct PFactView {
    pub datum_type: DatumType,
    pub shape: Seq<TDim>,
    pub axis: usize,
    pub dim: TDim,
    pub delay: usize,
}

impl View for PulsedFact {
    type V = PFactView;

    open spec fn view(&self) -> PFactView {
        PFactView {
            datum_type: self.datum_type,
            shape: self.shape@,
            axis: self.axis,
            dim: self.dim,
            delay: self.delay,
        }
    }
}

impl PFactView {
    /// A pulsed fact is well formed when the pulsed axis exists and holds a
    /// positive literal pulse length, the original dimension carries the
    /// streaming symbol, and no other axis does.
    pub open spec fn wf(self) -> bool {
        &&& self.axis < self.shape.len()
        &&& self.shape[self.axis as int] is Fixed
        &&& self.shape[self.axis as int]->Fixed_0 >= 1
        &&& self.dim.spec_has_symbol(spec_stream_symbol())
        &&& forall|k: int|
            0 <= k < self.shape.len() && k != self.axis ==> !(
            #[trigger] self.shape[k]).spec_has_symbol(spec_stream_symbol())
    }

    /// The pulse length recorded at the pulsed axis.
    pub open spec fn spec_pulse(self) -> usize {
        self.shape[self.axis as int]->Fixed_0
    }
}

impl PulsedFact {
    /// A pulsed fact is well formed when its mathematical value is.
    pub open spec fn wf(self) -> bool {
        self@.wf()
    }

    /// Pulse a resolved fact: replace its streaming axis by the pulse length
    /// and remember the original length, with no delay yet. A fact without a
    /// streaming axis cannot be pulsed.
    pub fn from_tensor_fact_pulse(tf: &TypedFact, pulse: usize) -> (r: Result<
        PulsedFact,
        GraphError,
    >)
        requires
            pulse >= 1,
        ensures
            (match spec_stream_info(tf.shape@) {
                None => r == Err::<PulsedFact, GraphError>(GraphError::NoStreamingDim),
                Some((axis, d)) => {
                    &&& r is Ok
                    &&& r->Ok_0@ == (PFactView {
                        datum_type: tf.datum_type,
                        shape: tf.shape@.update(axis as int, TDim::Fixed(pulse)),
                        axis,
                        dim: d,
                        delay: 0usize,
                    })
                    &&& r->Ok_0.wf()
                    &&& r->Ok_0.spec_pulse() == pulse
                },
            }),
    {
        match tf.shape.stream_info() {
            None => Err(GraphError::NoStreamingDim),
            Some((axis, d)) => {
                let mut shape = copy_dims(&tf.shape);
                proof {
                    vstd::std_specs::vec::axiom_spec_len(&tf.shape);
                    lemma_stream_info_unique(tf.shape@);
                }
                shape[axis] = TDim::Fixed(pulse);
                let r = PulsedFact { datum_type: tf.datum_type, shape, axis, dim: d, delay: 0 };
                proof {
                    assert(r.shape@ =~= tf.shape@.update(axis as int, TDim::Fixed(pulse)));
                }
                Ok(r)
            },
        }
    }

    /// The pulse length recorded at the pulsed axis.
    pub open spec fn spec_pulse(self) -> usize {
        self@.spec_pulse()
    }

    pub fn pulse(&self) -> (r: usize)
        requires
            self.wf(),
        ensures
            r == self.spec_pulse(),
    {
        match self.shape[self.axis] {
            TDim::Fixed(n) => n,
            TDim::Streamed { .. } => vstd::pervasive::unreached(),
        }
    }

    /// The fact as a plain resolved fact over the pulse shape.
    pub fn to_pulse_fact(&self) -> (r: TypedFact)
        ensures
            r@ == (TFactView { datum_type: self.datum_type, shape: self.shape@ }),
    {
        TypedFact { datum_type: self.datum_type, shape: copy_dims(&self.shape) }
    }

    /// The same resolved fact, under the name the generic fact interface
    /// uses.
    pub fn to_typed_fact(&self) -> (r: TypedFact)
        ensures
            r@ == (TFactView { datum_type: self.datum_type, shape: self.shape@ }),
    {
        self.to_pulse_fact()
    }

    /// The shape the stream had before pulsing: the pulsed axis restored to
    /// the unbounded length.
    pub open spec fn spec_streaming_shape(self) -> Seq<TDim> {
        self.shape@.update(self.axis as int, self.dim)
    }

    pub fn streaming_shape(&self) -> (r: Vec<TDim>)
        requires
            self.axis < self.shape@.len(),
        ensures
            r@ == self.spec_streaming_shape(),
    {
        let mut out = copy_dims(&self.shape);
        out[self.axis] = self.dim;
        out
    }

    /// The fact as a plain resolved fact over the original streaming shape.
    pub fn to_streaming_fact(&self) -> (r: TypedFact)
        requires
            self.axis < self.shape@.len(),
        ensures
            r@ == (TFactView { datum_type: self.datum_type, shape: self.spec_streaming_shape() }),
    {
        TypedFact { datum_type: self.datum_type, shape: self.streaming_shape() }
    }

    /// Whether two pulsed facts say the same thing.
    pub fn same_as(&self, other: &PulsedFact) -> (r: bool)
        ensures
            r == (self@ == other@),
    {
        if self.datum_type != other.datum_type || self.axis != other.axis || self.dim != other.dim
            || self.delay != other.delay {
            proof {
                assert(self@ != other@);
            }
            return false;
        }
        if self.shape.len() != other.shape.len() {
            proof {
                assert(self@.shape != other@.shape);
            }
            return false;
        }
        let mut i: usize = 0;
        while i < self.shape.len()
            invariant
                i <= self.shape.len(),
                self.shape@.len() == other.shape@.len(),
                forall|k: int| 0 <= k < i ==> self.shape@[k] == other.shape@[k],
            decreases self.shape.len() - i,
        {
            if self.shape[i] != other.shape[i] {
                proof {
                    assert(self@.shape != other@.shape);
                }
                return false;
            }
            i = i + 1;
        }
        proof {
            assert(self.shape@ =~= other.shape@);
            assert(self@ =~= other@);
        }
        true
    }

    /// An exact copy.
    pub fn duplicate(&self) -> (r: PulsedFact)
        ensures
            r@ == self@,
    {
        PulsedFact {
            datum_type: self.datum_type,
            shape: copy_dims(&self.shape),
            axis: self.axis,
            dim: self.dim,
            delay: self.delay,
        }
    }
}

/// Restoring a pulsed fact's streaming axis to the original length and then
/// pulsing again with the same pulse length reproduces the pulsed shape, the
/// axis and the length exactly.
pub proof fn lemma_pulse_stream_round_trip(f: PulsedFact)
    requires
        f.wf(),
    ensures
        spec_stream_info(f.spec_streaming_shape()) == Some((f.axis, f.dim)),
        f.spec_streaming_shape().update(f.axis as int, TDim::Fixed(f.spec_pulse())) == f.shape@,
{
    let s = f.spec_streaming_shape();
    vstd::std_specs::vec::axiom_spec_len(&f.shape);
    lemma_single_stream(s, f.axis as int);
    assert(s.update(f.axis as int, TDim::Fixed(f.spec_pulse())) =~= f.shape@);
}

} // verus!
