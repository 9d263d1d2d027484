//! The closed set of operations a node can carry, behind one capability
//! interface: whether an operation is stateless, how it evaluates on concrete
//! tensors, and what facts its outputs carry. Extending the engine means
//! adding a variant here together with its rules.

use vstd::prelude::*;

use crate::dim::TDim;
use crate::error::GraphError;
use crate::fact::{TFactView, TypedFact};
use crate::pulse::PulsedFact;
use crate::tensor::{TView, Tensor};

verus! {

/// A constant: a node that produces one fixed tensor.
#[derive(Debug, PartialEq)]
pub struct Const(pub Tensor);

impl Const {
    /// The operation's name, for diagnostics.
    pub fn name(&self) -> (r: String)
        ensures
            r@ == "Const"@,
    {
        "Const".to_owned()
    }

    /// A constant needs no state: evaluating it is pure.
    pub fn is_stateless(&self) -> (r: bool)
        ensures
            r == true,
    {
        true
    }

    /// Produce the constant itself.
    pub fn eval(&self) -> (r: Vec<Tensor>)
        ensures
            r@.len() == 1,
            r@[0]@ == self.0@,
    {
        let mut out: Vec<Tensor> = Vec::new();
        out.push(self.0.duplicate());
        out
    }

    /// The single output fact: the constant's own type and shape.
    pub fn output_facts(&self) -> (r: Vec<TypedFact>)
        ensures
            r@.len() == 1,
            r@[0]@ == spec_tensor_fact(self.0@),
    {
        let mut dims: Vec<TDim> = Vec::new();
        let mut i: usize = 0;
        while i < self.0.shape.len()
            invariant
                i <= self.0.shape.len(),
                dims@.len() == i,
                forall|k: int| 0 <= k < i ==> dims@[k] == TDim::Fixed(self.0.shape@[k]),
            decreases self.0.shape.len() - i,
        {
            dims.push(TDim::Fixed(self.0.shape[i]));
            i = i + 1;
        }
        let mut out: Vec<TypedFact> = Vec::new();
        out.push(TypedFact { datum_type: self.0.dt, shape: dims });
        proof {
            assert(out@[0]@.shape =~= spec_tensor_fact(self.0@).shape);
        }
        out
    }
}

/// The typed fact describing a concrete tensor.
pub open spec fn spec_tensor_fact(t: TView) -> TFactView {
    TFactView {
        datum_type: t.dt,
        shape: Seq::new(t.shape.len(), |k: int| TDim::Fixed(t.shape[k])),
    }
}

/// An operation at a graph node.
#[derive(Debug, PartialEq)]
pub enum Op {
    /// A designated graph input carrying a declared fact.
    Source(TypedFact),
    /// A designated input of a pulsed graph.
    PulsedSource(PulsedFact),
    /// A fixed tensor.
    Const(Const),
    /// Elementwise addition of two tensors of one shape and type.
    Add,
    /// Buffering that postpones its input by a number of pulses.
    Delay(usize),
    /// A placeholder node that computes nothing.
    Dummy,
}

impl Op {
    /// Whether evaluation is a pure function of the inputs. Sources draw
    /// their value from outside, and delays carry buffered state.
    pub open spec fn spec_is_stateless(self) -> bool {
        match self {
            Op::Const(_) => true,
            Op::Add => true,
            _ => false,
        }
    }

    pub fn is_stateless(&self) -> (r: bool)
        ensures
            r == self.spec_is_stateless(),
    {
        match self {
            Op::Const(_) => true,
            Op::Add => true,
            _ => false,
        }
    }

    /// The operation's name, for diagnostics.
    pub fn name(&self) -> (r: String)
        ensures
            r@ == self.spec_name(),
    {
        match self {
            Op::Source(_) => "Source".to_owned(),
            Op::PulsedSource(_) => "PulsedSource".to_owned(),
            Op::Const(_) => "Const".to_owned(),
            Op::Add => "Add".to_owned(),
            Op::Delay(_) => "Delay".to_owned(),
            Op::Dummy => "Dummy".to_owned(),
        }
    }

    /// Whether this operation is a designated input of its graph.
    pub fn is_source(&self) -> (r: bool)
        ensures
            r == (self is Source || self is PulsedSource),
    {
        match self {
            Op::Source(_) => true,
            Op::PulsedSource(_) => true,
            _ => false,
        }
    }

    pub open spec fn spec_name(self) -> Seq<char> {
        match self {
            Op::Source(_) => "Source"@,
            Op::PulsedSource(_) => "PulsedSource"@,
            Op::Const(_) => "Const"@,
            Op::Add => "Add"@,
            Op::Delay(_) => "Delay"@,
            Op::Dummy => "Dummy"@,
        }
    }
}

/// What evaluating an operation on concrete inputs yields: the outputs'
/// values, or the failure. A deterministic function of the operation and the
/// input values alone.
pub open spec fn spec_eval(op: Op, ins: Seq<TView>) -> Result<Seq<TView>, GraphError> {
    match op {
        Op::Const(c) => Ok(seq![c.0@]),
        Op::Add => spec_eval_add(ins),
        _ => Err(GraphError::EvalNotSupported),
    }
}

/// Elementwise addition: both inputs must agree in type and shape, and every
/// elementwise sum must fit the element type.
pub open spec fn spec_eval_add(ins: Seq<TView>) -> Result<Seq<TView>, GraphError> {
    if ins.len() != 2 {
        Err(GraphError::Arity)
    } else if ins[0].dt != ins[1].dt || ins[0].shape != ins[1].shape || ins[0].data.len()
        != ins[1].data.len() {
        Err(GraphError::ShapeMismatch)
    } else if exists|k: int|
        #![trigger ins[0].data[k]]
        0 <= k < ins[0].data.len() && !(i64::MIN <= ins[0].data[k] + ins[1].data[k] <= i64::MAX) {
        Err(GraphError::Overflow)
    } else {
        Ok(
            seq![
                TView {
                    dt: ins[0].dt,
                    shape: ins[0].shape,
                    data: Seq::new(ins[0].data.len(), |k: int| (ins[0].data[k] + ins[1].data[k]) as i64),
                },
            ],
        )
    }
}

/// The views of a sequence of tensors.
pub open spec fn tensor_views(ts: Seq<Tensor>) -> Seq<TView> {
    ts.map_values(|t: Tensor| t@)
}

/// Evaluate a stateless operation on concrete input tensors.
pub fn eval_op(op: &Op, inputs: &Vec<Tensor>) -> (r: Result<Vec<Tensor>, GraphError>)
    ensures
        (match spec_eval(*op, tensor_views(inputs@)) {
            Ok(outs) => r is Ok && tensor_views(r->Ok_0@) == outs,
            Err(e) => r == Err::<Vec<Tensor>, GraphError>(e),
        }),
{
    match op {
        Op::Const(c) => {
            let outs = c.eval();
            proof {
                assert(tensor_views(outs@) =~= spec_eval(*op, tensor_views(inputs@))->Ok_0);
            }
            Ok(outs)
        },
        Op::Add => eval_add(inputs),
        _ => Err(GraphError::EvalNotSupported),
    }
}

/// Elementwise addition on concrete tensors.
fn eval_add(inputs: &Vec<Tensor>) -> (r: Result<Vec<Tensor>, GraphError>)
    ensures
        (match spec_eval_add(tensor_views(inputs@)) {
            Ok(outs) => r is Ok && tensor_views(r->Ok_0@) == outs,
            Err(e) => r == Err::<Vec<Tensor>, GraphError>(e),
        }),
{
    if inputs.len() != 2 {
        return Err(GraphError::Arity);
    }
    let a = &inputs[0];
    let b = &inputs[1];
    if a.dt != b.dt {
        return Err(GraphError::ShapeMismatch);
    }
    if !same_usize_vec(&a.shape, &b.shape) {
        return Err(GraphError::ShapeMismatch);
    }
    if a.data.len() != b.data.len() {
        return Err(GraphError::ShapeMismatch);
    }
    let ghost ins = tensor_views(inputs@);
    let mut data: Vec<i64> = Vec::new();
    let mut k: usize = 0;
    while k < a.data.len()
        invariant
            k <= a.data.len(),
            a.data@.len() == b.data@.len(),
            a.dt == b.dt,
            a.shape@ == b.shape@,
            ins == tensor_views(inputs@),
            inputs@.len() == 2,
            a@ == ins[0],
            b@ == ins[1],
            ins.len() == 2,
            data@.len() == k,
            forall|j: int|
                #![trigger a.data@[j]]
                0 <= j < k ==> i64::MIN <= a.data@[j] + b.data@[j] <= i64::MAX,
            forall|j: int| 0 <= j < k ==> data@[j] == a.data@[j] + b.data@[j],
        decreases a.data.len() - k,
    {
        match a.data[k].checked_add(b.data[k]) {
            Some(s) => data.push(s),
            None => {
                proof {
                    let vs = tensor_views(inputs@);
                    assert(vs[0] == a@ && vs[1] == b@);
                    assert(!(i64::MIN <= vs[0].data[k as int] + vs[1].data[k as int] <= i64::MAX));
                    assert(exists|j: int|
                        #![trigger vs[0].data[j]]
                        0 <= j < vs[0].data.len() && !(i64::MIN <= vs[0].data[j] + vs[1].data[j]
                            <= i64::MAX));
                }
                return Err(GraphError::Overflow);
            },
        }
        k = k + 1;
    }
    let out = Tensor { dt: a.dt, shape: copy_shape(&a.shape), data };
    let mut outs: Vec<Tensor> = Vec::new();
    outs.push(out);
    proof {
        assert(spec_eval_add(ins) is Ok) by {
            assert(forall|j: int|
                #![trigger ins[0].data[j]]
                0 <= j < ins[0].data.len() ==> i64::MIN <= ins[0].data[j] + ins[1].data[j]
                    <= i64::MAX);
        }
        assert(outs@[0]@.data =~= spec_eval_add(ins)->Ok_0[0].data);
        assert(outs@[0]@ =~= spec_eval_add(ins)->Ok_0[0]);
        assert(tensor_views(outs@) =~= spec_eval_add(ins)->Ok_0);
    }
    Ok(outs)
}

/// Whether two concrete shapes are equal.
fn same_usize_vec(a: &Vec<usize>, b: &Vec<usize>) -> (r: bool)
    ensures
        r == (a@ == b@),
{
    if a.len() != b.len() {
        proof {
            assert(a@ != b@);
        }
        return false;
    }
    let mut i: usize = 0;
    while i < a.len()
        invariant
            i <= a.len(),
            a@.len() == b@.len(),
            forall|k: int| 0 <= k < i ==> a@[k] == b@[k],
        decreases a.len() - i,
    {
        if a[i] != b[i] {
            proof {
                assert(a@ != b@);
            }
            return false;
        }
        i = i + 1;
    }
    proof {
        assert(a@ =~= b@);
    }
    true
}

/// An exact copy of a concrete shape.
fn copy_shape(v: &Vec<usize>) -> (r: Vec<usize>)
    ensures
        r@ == v@,
{
    let mut out: Vec<usize> = Vec::new();
    let mut i: usize = 0;
    while i < v.len()
        invariant
            i <= v.len(),
            out@ == v@.take(i as int),
        decreases v.len() - i,
    {
        out.push(v[i]);
        i = i + 1;
    }
    proof {
        assert(out@ =~= v@);
    }
    out
}

} // verus!
