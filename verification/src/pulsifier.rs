//! The pulsifier: a translation strategy that turns a resolved graph over
//! one unbounded streaming dimension into a graph processing that dimension
//! in fixed-size pulses, inserting delay compensation where inputs disagree
//! in latency and tracking the delay every output accumulates.

use vstd::prelude::*;

use crate::dim::TDim;
use crate::error::GraphError;
use crate::fact::{TFactView, TypedFact};
use crate::graph::{outlet_valid, Graph, Node, OutletId};
use crate::ops::Op;
use crate::pulse::{PFactView, PulsedFact};
use crate::translate::{mapping_ok, mapping_views, translate_model, Translate};

verus! {

/// A resolved graph: one fully typed fact per outlet.
pub type TypedModel = Graph<TypedFact>;

/// A pulsed graph: one pulsed fact per outlet.
pub type PulsedModel = Graph<PulsedFact>;

/// The mathematical values of a sequence of pulsed facts.
pub open spec fn pfact_views(fs: Seq<PulsedFact>) -> Seq<PFactView> {
    fs.map_values(|f: PulsedFact| f@)
}

/// The facts carried by a sequence of outlets of a pulsed graph.
pub open spec fn outlet_facts(nodes: Seq<Node<PulsedFact>>, outlets: Seq<OutletId>) -> Seq<
    PFactView,
> {
    Seq::new(
        outlets.len(),
        |j: int| nodes[outlets[j].node as int].outputs@[outlets[j].slot as int]@,
    )
}

/// What facts an operation's outputs carry in a pulsed graph, as a function
/// of its input facts. Delay only ever accumulates: every output's delay is
/// at least every input's.
pub open spec fn spec_pulsed_output_facts(op: Op, ins: Seq<PFactView>) -> Result<
    Seq<PFactView>,
    GraphError,
> {
    match op {
        Op::PulsedSource(f) => if ins.len() != 0 {
            Err(GraphError::Arity)
        } else {
            Ok(seq![f@])
        },
        Op::Delay(frames) => if ins.len() != 1 {
            Err(GraphError::Arity)
        } else if ins[0].delay + frames > usize::MAX {
            Err(GraphError::Overflow)
        } else {
            Ok(
                seq![
                    PFactView {
                        datum_type: ins[0].datum_type,
                        shape: ins[0].shape,
                        axis: ins[0].axis,
                        dim: ins[0].dim,
                        delay: (ins[0].delay + frames) as usize,
                    },
                ],
            )
        },
        Op::Add => if ins.len() != 2 {
            Err(GraphError::Arity)
        } else if ins[0] != ins[1] {
            Err(GraphError::ShapeMismatch)
        } else {
            Ok(seq![ins[0]])
        },
        _ => Err(GraphError::NoPulsifier),
    }
}

/// Derive the pulsed facts of an operation's outputs from its input facts.
pub fn pulsed_output_facts(op: &Op, inputs: &Vec<PulsedFact>) -> (r: Result<
    Vec<PulsedFact>,
    GraphError,
>)
    ensures
        (match spec_pulsed_output_facts(*op, pfact_views(inputs@)) {
            Ok(outs) => r is Ok && pfact_views(r->Ok_0@) == outs,
            Err(e) => r == Err::<Vec<PulsedFact>, GraphError>(e),
        }),
{
    let ghost ins = pfact_views(inputs@);
    match op {
        Op::PulsedSource(f) => {
            if inputs.len() != 0 {
                return Err(GraphError::Arity);
            }
            let mut outs: Vec<PulsedFact> = Vec::new();
            outs.push(f.duplicate());
            proof {
                assert(pfact_views(outs@) =~= spec_pulsed_output_facts(*op, ins)->Ok_0);
            }
            Ok(outs)
        },
        Op::Delay(frames) => {
            if inputs.len() != 1 {
                return Err(GraphError::Arity);
            }
            let f = &inputs[0];
            match f.delay.checked_add(*frames) {
                None => Err(GraphError::Overflow),
                Some(d) => {
                    let mut out = f.duplicate();
                    out.delay = d;
                    let mut outs: Vec<PulsedFact> = Vec::new();
                    outs.push(out);
                    proof {
                        assert(pfact_views(outs@) =~= spec_pulsed_output_facts(*op, ins)->Ok_0);
                    }
                    Ok(outs)
                },
            }
        },
        Op::Add => {
            if inputs.len() != 2 {
                return Err(GraphError::Arity);
            }
            if !inputs[0].same_as(&inputs[1]) {
                return Err(GraphError::ShapeMismatch);
            }
            let mut outs: Vec<PulsedFact> = Vec::new();
            outs.push(inputs[0].duplicate());
            proof {
                assert(pfact_views(outs@) =~= spec_pulsed_output_facts(*op, ins)->Ok_0);
            }
            Ok(outs)
        },
        _ => Err(GraphError::NoPulsifier),
    }
}

impl Graph<PulsedFact> {
    /// Append a node whose output facts the operation derives from the facts
    /// of the outlets it consumes, and return its outlets in order.
    pub fn wire_node(&mut self, name: String, op: Op, inputs: Vec<OutletId>) -> (r: Result<
        Vec<OutletId>,
        GraphError,
    >)
        requires
            old(self).wf(),
        ensures
            final(self).wf(),
            final(self).inputs@ == old(self).inputs@,
            final(self).outputs@ == old(self).outputs@,
            final(self).properties@ == old(self).properties@,
            old(self).nodes@.is_prefix_of(final(self).nodes@),
            (match r {
                Ok(outs) => {
                    &&& forall|j: int|
                        0 <= j < inputs@.len() ==> outlet_valid(
                            old(self).nodes@,
                            #[trigger] inputs@[j],
                        )
                    &&& spec_pulsed_output_facts(
                        op,
                        outlet_facts(old(self).nodes@, inputs@),
                    ) is Ok
                    &&& ({
                        let facts = spec_pulsed_output_facts(
                            op,
                            outlet_facts(old(self).nodes@, inputs@),
                        )->Ok_0;
                        let id = old(self).nodes@.len();
                        &&& final(self).nodes@.len() == id + 1
                        &&& final(self).nodes@[id as int].name@ == name@
                        &&& final(self).nodes@[id as int].op == op
                        &&& final(self).nodes@[id as int].inputs@ == inputs@
                        &&& pfact_views(final(self).nodes@[id as int].outputs@) == facts
                        &&& outs@.len() == facts.len()
                        &&& forall|j: int|
                            0 <= j < outs@.len() ==> (#[trigger] outs@[j]).node == id
                                && outs@[j].slot == j
                    })
                },
                Err(e) => {
                    &&& *final(self) == *old(self)
                    &&& ((e == GraphError::InvalidOutlet && exists|j: int|
                        0 <= j < inputs@.len() && !outlet_valid(
                            old(self).nodes@,
                            #[trigger] inputs@[j],
                        )) || ((forall|j: int|
                        0 <= j < inputs@.len() ==> outlet_valid(
                            old(self).nodes@,
                            #[trigger] inputs@[j],
                        )) && spec_pulsed_output_facts(
                        op,
                        outlet_facts(old(self).nodes@, inputs@),
                    ) == Err::<Seq<PFactView>, GraphError>(e)))
                },
            }),
    {
        let ghost nodes0 = self.nodes@;
        let mut in_facts: Vec<PulsedFact> = Vec::new();
        let mut j: usize = 0;
        while j < inputs.len()
            invariant
                j <= inputs@.len(),
                *self == *old(self),
                self.wf(),
                self.nodes@ == nodes0,
                in_facts@.len() == j,
                forall|k: int| 0 <= k < j ==> outlet_valid(nodes0, #[trigger] inputs@[k]),
                forall|k: int|
                    0 <= k < j ==> in_facts@[k]@ == outlet_facts(nodes0, inputs@)[k],
            decreases inputs@.len() - j,
        {
            let o = inputs[j];
            if o.node >= self.nodes.len() {
                proof {
                    assert(!outlet_valid(nodes0, inputs@[j as int]));
                }
                return Err(GraphError::InvalidOutlet);
            }
            if o.slot >= self.nodes[o.node].outputs.len() {
                proof {
                    assert(!outlet_valid(nodes0, inputs@[j as int]));
                }
                return Err(GraphError::InvalidOutlet);
            }
            in_facts.push(self.outlet_fact(o).duplicate());
            j = j + 1;
        }
        proof {
            assert(pfact_views(in_facts@) =~= outlet_facts(nodes0, inputs@));
        }
        let out_facts = match pulsed_output_facts(&op, &in_facts) {
            Err(e) => {
                return Err(e);
            },
            Ok(f) => f,
        };
        let n_outs = out_facts.len();
        let id = match self.add_node(name, op, inputs, out_facts) {
            Err(_) => vstd::pervasive::unreached(),
            Ok(id) => id,
        };
        let mut outs: Vec<OutletId> = Vec::new();
        let mut s: usize = 0;
        while s < n_outs
            invariant
                s <= n_outs,
                outs@.len() == s,
                forall|t: int|
                    0 <= t < s ==> (#[trigger] outs@[t]).node == id && outs@[t].slot == t,
            decreases n_outs - s,
        {
            outs.push(OutletId { node: id, slot: s });
            s = s + 1;
        }
        Ok(outs)
    }
}

impl Graph<TypedFact> {
    /// Add a designated graph input carrying a declared fact, and return its
    /// outlet.
    pub fn add_source(&mut self, name: String, fact: TypedFact) -> (r: OutletId)
        requires
            old(self).wf(),
        ensures
            final(self).wf(),
            final(self).nodes@.len() == old(self).nodes@.len() + 1,
            old(self).nodes@.is_prefix_of(final(self).nodes@),
            ({
                let node = final(self).nodes@.last();
                &&& node.name@ == name@
                &&& node.op == Op::Source(fact)
                &&& node.inputs@.len() == 0
                &&& node.outputs@.len() == 1
                &&& node.outputs@[0]@ == fact@
            }),
            final(self).inputs@.len() == old(self).inputs@.len() + 1,
            forall|t: int|
                0 <= t < old(self).inputs@.len() ==> #[trigger] final(self).inputs@[t] == old(
                    self,
                ).inputs@[t],
            final(self).inputs@.last() == r,
            r.node == old(self).nodes@.len() && r.slot == 0,
            final(self).outputs@ == old(self).outputs@,
            final(self).properties@ == old(self).properties@,
    {
        let f2 = fact.duplicate();
        let mut facts: Vec<TypedFact> = Vec::new();
        facts.push(f2);
        let id = match self.add_node(name, Op::Source(fact), Vec::new(), facts) {
            Err(_) => vstd::pervasive::unreached(),
            Ok(id) => id,
        };
        let o = OutletId { node: id, slot: 0 };
        self.inputs.push(o);
        proof {
            assert(self.nodes@.is_prefix_of(self.nodes@));
            assert(outlet_valid(self.nodes@, o));
        }
        o
    }
}

impl Graph<PulsedFact> {
    /// The operation standing for a designated input carrying this fact.
    pub fn create_source(&self, fact: PulsedFact) -> (r: Op)
        ensures
            r == Op::PulsedSource(fact),
    {
        Op::PulsedSource(fact)
    }

    /// A placeholder operation that computes nothing.
    pub fn create_dummy(&self) -> (r: Op)
        ensures
            r == Op::Dummy,
    {
        Op::Dummy
    }
}

/// The fact carried at one outlet of a pulsed graph.
pub open spec fn fact_at(nodes: Seq<Node<PulsedFact>>, o: OutletId) -> PFactView {
    nodes[o.node as int].outputs@[o.slot as int]@
}

/// Appending nodes to a graph leaves the fact at an existing outlet as it
/// was.
pub proof fn lemma_fact_at_mono(a: Seq<Node<PulsedFact>>, b: Seq<Node<PulsedFact>>, o: OutletId)
    requires
        a.is_prefix_of(b),
        outlet_valid(a, o),
    ensures
        outlet_valid(b, o),
        fact_at(b, o) == fact_at(a, o),
{
    assert(b[o.node as int] == b.subrange(0, a.len() as int)[o.node as int]);
}

/// In a pulsed graph built by the pulsifier, delay only accumulates: every
/// output of a node carries at least the delay of every input it consumes.
pub open spec fn delay_monotone(nodes: Seq<Node<PulsedFact>>) -> bool {
    forall|i: int, j: int, k: int|
        #![trigger nodes[i].inputs@[j], nodes[i].outputs@[k]]
        0 <= i < nodes.len() && 0 <= j < nodes[i].inputs@.len() && 0 <= k
            < nodes[i].outputs@.len() && outlet_valid(nodes, nodes[i].inputs@[j]) ==> ({
            let o = nodes[i].inputs@[j];
            nodes[o.node as int].outputs@[o.slot as int]@.delay <= nodes[i].outputs@[k]@.delay
        })
}

/// Every fact of the graph is well formed and records the one pulse length.
pub open spec fn facts_pulsed(nodes: Seq<Node<PulsedFact>>, pulse: usize) -> bool {
    forall|i: int, k: int|
        0 <= i < nodes.len() && 0 <= k < nodes[i].outputs@.len() ==> ((
        #[trigger] nodes[i].outputs@[k])@.wf() && nodes[i].outputs@[k]@.spec_pulse() == pulse)
}

/// Being a prefix of a sequence of nodes is transitive.
pub proof fn lemma_prefix_trans<F>(a: Seq<Node<F>>, b: Seq<Node<F>>, c: Seq<Node<F>>)
    requires
        a.is_prefix_of(b),
        b.is_prefix_of(c),
    ensures
        a.is_prefix_of(c),
{
    assert forall|t: int| 0 <= t < a.len() implies a[t] == c.subrange(0, a.len() as int)[t] by {
        assert(a[t] == b.subrange(0, a.len() as int)[t]);
        assert(b[t] == c.subrange(0, b.len() as int)[t]);
    }
    assert(a =~= c.subrange(0, a.len() as int));
}

/// Wiring one node whose facts the per-operation rules derive preserves both
/// parts of the pulsifier's invariant.
pub proof fn lemma_wire_preserves_inv(
    pulse: usize,
    pre: Seq<Node<PulsedFact>>,
    post: Seq<Node<PulsedFact>>,
    op: Op,
    inputs: Seq<OutletId>,
)
    requires
        delay_monotone(pre),
        facts_pulsed(pre, pulse),
        crate::graph::nodes_wf(pre),
        crate::graph::nodes_wf(post),
        pre.is_prefix_of(post),
        post.len() == pre.len() + 1,
        post[pre.len() as int].inputs@ == inputs,
        forall|j: int| 0 <= j < inputs.len() ==> outlet_valid(pre, #[trigger] inputs[j]),
        spec_pulsed_output_facts(op, outlet_facts(pre, inputs)) is Ok,
        pfact_views(post[pre.len() as int].outputs@) == spec_pulsed_output_facts(
            op,
            outlet_facts(pre, inputs),
        )->Ok_0,
        (match op {
            Op::PulsedSource(f) => f@.wf() && f@.spec_pulse() == pulse,
            _ => true,
        }),
    ensures
        delay_monotone(post),
        facts_pulsed(post, pulse),
{
    let n = pre.len() as int;
    assert forall|t: int| 0 <= t < n implies post[t] == pre[t] by {
        assert(pre[t] == post.subrange(0, n)[t]);
    }
    let ins = outlet_facts(pre, inputs);
    let facts = spec_pulsed_output_facts(op, ins)->Ok_0;
    assert(pfact_views(post[n].outputs@).len() == post[n].outputs@.len());

    assert forall|i: int, k: int|
        0 <= i < post.len() && 0 <= k < post[i].outputs@.len() implies ((
    #[trigger] post[i].outputs@[k])@.wf() && post[i].outputs@[k]@.spec_pulse() == pulse) by {
        if i < n {
            assert(post[i] == pre[i]);
            assert(pre[i].outputs@[k]@.wf() && pre[i].outputs@[k]@.spec_pulse() == pulse);
        } else {
            assert(post[i].outputs@[k]@ == pfact_views(post[i].outputs@)[k]);
            match op {
                Op::PulsedSource(_) => {
                },
                Op::Delay(_) => {
                    let o = inputs[0];
                    assert(ins[0] == pre[o.node as int].outputs@[o.slot as int]@);
                    assert(pre[o.node as int].outputs@[o.slot as int]@.wf());
                },
                Op::Add => {
                    let o = inputs[0];
                    assert(ins[0] == pre[o.node as int].outputs@[o.slot as int]@);
                    assert(pre[o.node as int].outputs@[o.slot as int]@.wf());
                },
                _ => {
                    assert(false);
                },
            }
        }
    }

    assert forall|i: int, j: int, k: int|
        #![trigger post[i].inputs@[j], post[i].outputs@[k]]
        0 <= i < post.len() && 0 <= j < post[i].inputs@.len() && 0 <= k
            < post[i].outputs@.len() && outlet_valid(post, post[i].inputs@[j]) implies ({
        let o = post[i].inputs@[j];
        post[o.node as int].outputs@[o.slot as int]@.delay <= post[i].outputs@[k]@.delay
    }) by {
        let o = post[i].inputs@[j];
        if i < n {
            assert(post[i] == pre[i]);
            assert(crate::graph::node_wf(pre, i));
            assert(o == pre[i].inputs@[j]);
            assert(o.node < i);
            assert(post[o.node as int] == pre[o.node as int]);
            assert(outlet_valid(pre, o));
            assert(pre[o.node as int].outputs@[o.slot as int]@.delay
                <= pre[i].outputs@[k]@.delay);
        } else {
            assert(o == inputs[j]);
            assert(outlet_valid(pre, o));
            assert(post[o.node as int] == pre[o.node as int]);
            let pd = pre[o.node as int].outputs@[o.slot as int]@.delay;
            assert(ins[j] == pre[o.node as int].outputs@[o.slot as int]@);
            assert(post[i].outputs@[k]@ == facts[k]);
            match op {
                Op::Delay(_) => {
                },
                Op::Add => {
                    assert(ins[0] == ins[1]);
                },
                _ => {
                    assert(false);
                },
            }
        }
    }
}


/// The outlet a source node's input is mapped to exists and is valid in the
/// target.
pub proof fn lemma_mapped_outlet(
    source: Seq<Node<TypedFact>>,
    target: Seq<Node<PulsedFact>>,
    mapping: Seq<Seq<OutletId>>,
    node_id: int,
    j: int,
)
    requires
        crate::graph::nodes_wf(source),
        0 <= node_id < source.len(),
        mapping.len() == node_id,
        mapping_ok(source, target, mapping),
        0 <= j < source[node_id].inputs@.len(),
    ensures
        ({
            let o = source[node_id].inputs@[j];
            &&& o.node < node_id
            &&& o.slot < mapping[o.node as int].len()
            &&& outlet_valid(target, mapping[o.node as int][o.slot as int])
        }),
{
    assert(crate::graph::node_wf(source, node_id));
}

/// Whether pulsifying one node must fail, and how, given the target built
/// so far: a non-positive pulse or a node without exactly one output slot is
/// malformed; a source without a streaming axis, a delay whose accumulated
/// latency overflows, an elementwise node whose mapped inputs disagree, and
/// an operation without a pulsification rule are each rejected with their
/// named error. `None` means pulsifying the node is owed to succeed.
pub open spec fn pulsify_node_fails(
    pulse: usize,
    source: &Graph<TypedFact>,
    node_id: int,
    mapping: Seq<Seq<OutletId>>,
    nodes: Seq<Node<PulsedFact>>,
) -> Option<GraphError> {
    let snode = source.nodes@[node_id];
    if pulse < 1 {
        Some(GraphError::InvalidPulse)
    } else if snode.outputs@.len() != 1 {
        Some(GraphError::Arity)
    } else {
        match snode.op {
            Op::Source(f) => (match crate::pulse::spec_stream_info(f.shape@) {
                Some(_) => None,
                None => Some(GraphError::NoStreamingDim),
            }),
            Op::Delay(frames) => if snode.inputs@.len() != 1 {
                Some(GraphError::Arity)
            } else {
                let o = snode.inputs@[0];
                let inf = fact_at(nodes, mapping[o.node as int][o.slot as int]);
                if inf.delay + frames > usize::MAX {
                    Some(GraphError::Overflow)
                } else {
                    None
                }
            },
            Op::Add => if snode.inputs@.len() != 2 {
                Some(GraphError::Arity)
            } else {
                let o1 = snode.inputs@[0];
                let o2 = snode.inputs@[1];
                let in1 = fact_at(nodes, mapping[o1.node as int][o1.slot as int]);
                let in2 = fact_at(nodes, mapping[o2.node as int][o2.slot as int]);
                if in1.datum_type == in2.datum_type && in1.shape == in2.shape && in1.axis
                    == in2.axis && in1.dim == in2.dim {
                    None
                } else {
                    Some(GraphError::ShapeMismatch)
                }
            },
            _ => Some(GraphError::NoPulsifier),
        }
    }
}

/// The translation strategy from a resolved streaming graph to a pulsed
/// one, for a chosen pulse length.
pub struct Pulsifier {
    pub pulse: usize,
}
impl Translate<TypedFact, PulsedFact> for Pulsifier {
    /// Delay only accumulates, and every fact carries this pulse length.
    open spec fn inv(&self, nodes: Seq<Node<PulsedFact>>) -> bool {
        &&& delay_monotone(nodes)
        &&& facts_pulsed(nodes, self.pulse)
    }

    /// What pulsifying one node guarantees: it stands behind exactly one
    /// target outlet, whose fact is the source fact pulsed (for a source),
    /// the mapped input's fact with the extra latency (for a delay), or the
    /// mapped inputs' common fact at their greater latency (for an
    /// elementwise operation).
    open spec fn node_rel(
        &self,
        source: &Graph<TypedFact>,
        node_id: int,
        mapping: Seq<Seq<OutletId>>,
        nodes: Seq<Node<PulsedFact>>,
    ) -> bool {
        let snode = source.nodes@[node_id];
        let row = mapping[node_id];
        &&& mapping.len() == node_id + 1
        &&& row.len() == 1
        &&& outlet_valid(nodes, row[0])
        &&& (match snode.op {
            Op::Source(f) => (match crate::pulse::spec_stream_info(f.shape@) {
                Some((axis, d)) => fact_at(nodes, row[0]) == (PFactView {
                    datum_type: f.datum_type,
                    shape: f.shape@.update(axis as int, TDim::Fixed(self.pulse)),
                    axis,
                    dim: d,
                    delay: 0usize,
                }),
                None => false,
            }),
            Op::Delay(frames) => {
                &&& snode.inputs@.len() == 1
                &&& ({
                    let o = snode.inputs@[0];
                    &&& o.node < node_id
                    &&& o.slot < mapping[o.node as int].len()
                    &&& outlet_valid(nodes, mapping[o.node as int][o.slot as int])
                    &&& ({
                        let inf = fact_at(nodes, mapping[o.node as int][o.slot as int]);
                        let out = fact_at(nodes, row[0]);
                        &&& inf.delay + frames <= usize::MAX
                        &&& out == (PFactView {
                            datum_type: inf.datum_type,
                            shape: inf.shape,
                            axis: inf.axis,
                            dim: inf.dim,
                            delay: (inf.delay + frames) as usize,
                        })
                    })
                })
            },
            Op::Add => {
                &&& snode.inputs@.len() == 2
                &&& ({
                    let o1 = snode.inputs@[0];
                    let o2 = snode.inputs@[1];
                    &&& o1.node < node_id
                    &&& o1.slot < mapping[o1.node as int].len()
                    &&& o2.node < node_id
                    &&& o2.slot < mapping[o2.node as int].len()
                    &&& outlet_valid(nodes, mapping[o1.node as int][o1.slot as int])
                    &&& outlet_valid(nodes, mapping[o2.node as int][o2.slot as int])
                    &&& ({
                        let in1 = fact_at(nodes, mapping[o1.node as int][o1.slot as int]);
                        let in2 = fact_at(nodes, mapping[o2.node as int][o2.slot as int]);
                        let out = fact_at(nodes, row[0]);
                        &&& in1.datum_type == in2.datum_type
                        &&& in1.shape == in2.shape
                        &&& in1.axis == in2.axis
                        &&& in1.dim == in2.dim
                        &&& out.datum_type == in1.datum_type
                        &&& out.shape == in1.shape
                        &&& out.axis == in1.axis
                        &&& out.dim == in1.dim
                        &&& out.delay == (if in1.delay >= in2.delay {
                            in1.delay
                        } else {
                            in2.delay
                        })
                    })
                })
            },
            _ => false,
        })
    }

    proof fn node_rel_mono(
        &self,
        source: &Graph<TypedFact>,
        node_id: int,
        mapping: Seq<Seq<OutletId>>,
        a: Seq<Node<PulsedFact>>,
        b: Seq<Node<PulsedFact>>,
    ) {
        let row = mapping[node_id];
        lemma_fact_at_mono(a, b, row[0]);
        let snode = source.nodes@[node_id];
        match snode.op {
            Op::Delay(_) => {
                let o = snode.inputs@[0];
                lemma_fact_at_mono(a, b, mapping[o.node as int][o.slot as int]);
            },
            Op::Add => {
                let o1 = snode.inputs@[0];
                let o2 = snode.inputs@[1];
                lemma_fact_at_mono(a, b, mapping[o1.node as int][o1.slot as int]);
                lemma_fact_at_mono(a, b, mapping[o2.node as int][o2.slot as int]);
            },
            _ => {},
        }
    }

    open spec fn node_fails(
        &self,
        source: &Graph<TypedFact>,
        node_id: int,
        mapping: Seq<Seq<OutletId>>,
        nodes: Seq<Node<PulsedFact>>,
    ) -> Option<GraphError> {
        pulsify_node_fails(self.pulse, source, node_id, mapping, nodes)
    }

    /// Pulsify one node through the per-operation rules: a source gains a
    /// pulsed fact or is rejected when nothing streams, an elementwise
    /// operation is wired over delay-aligned inputs, a delay deepens the
    /// accumulated latency, and an operation without a rule is a hard error.
    #[verifier::rlimit(100)]
    fn translate_node(
        &self,
        source: &Graph<TypedFact>,
        node_id: usize,
        target: &mut Graph<PulsedFact>,
        mapping: &Vec<Vec<OutletId>>,
    ) -> (r: Result<Vec<OutletId>, GraphError>) {
        if self.pulse < 1 {
            return Err(GraphError::InvalidPulse);
        }
        let node = &source.nodes[node_id];
        if node.outputs.len() != 1 {
            return Err(GraphError::Arity);
        }
        let ghost mv = mapping_views(mapping@);
        match &node.op {
            Op::Source(fact) => {
                match PulsedFact::from_tensor_fact_pulse(fact, self.pulse) {
                    Err(e) => Err(e),
                    Ok(pf) => {
                        let ghost pre = target.nodes@;
                        let r = target.wire_node(
                            node.name.clone(),
                            Op::PulsedSource(pf),
                            Vec::new(),
                        );
                        proof {
                            if r is Err {
                                assert(false);
                            }
                            if r is Ok {
                                let last = target.nodes@.last();
                                assert(last.op == Op::PulsedSource(pf));
                                lemma_wire_preserves_inv(
                                    self.pulse,
                                    pre,
                                    target.nodes@,
                                    last.op,
                                    last.inputs@,
                                );
                                assert(pfact_views(last.outputs@).len() == last.outputs@.len());
                                assert(r->Ok_0@.len() == 1);
                                assert(outlet_valid(target.nodes@, r->Ok_0@[0]));
                                let row = mv.push(r->Ok_0@)[node_id as int];
                                assert(row == r->Ok_0@);
                                assert(last.outputs@[0]@ == pfact_views(last.outputs@)[0]);
                                assert(fact_at(target.nodes@, row[0]) == pf@);
                            }
                        }
                        r
                    },
                }
            },
            Op::Delay(frames) => {
                if node.inputs.len() != 1 {
                    return Err(GraphError::Arity);
                }
                let o = node.inputs[0];
                proof {
                    lemma_mapped_outlet(source.nodes@, target.nodes@, mv, node_id as int, 0);
                    assert(mapping@[o.node as int]@ == mv[o.node as int]);
                }
                let m = mapping[o.node][o.slot];
                let mut ins: Vec<OutletId> = Vec::new();
                ins.push(m);
                let ghost ins_v = ins@;
                let ghost pre = target.nodes@;
                let r = target.wire_node(node.name.clone(), Op::Delay(*frames), ins);
                proof {
                    assert(mv[o.node as int][o.slot as int] == m);
                    assert(outlet_valid(pre, m));
                    assert(outlet_facts(pre, ins_v)[0] == fact_at(pre, m));
                    if r is Err {
                        let e = r->Err_0;
                        assert(spec_pulsed_output_facts(Op::Delay(*frames), outlet_facts(pre, ins_v))
                            == Err::<Seq<PFactView>, GraphError>(e));
                        assert(e == GraphError::Overflow);
                        assert(fact_at(pre, m).delay + *frames > usize::MAX);
                    }
                    if r is Ok {
                        let last = target.nodes@.last();
                        assert(last.op == Op::Delay(*frames));
                        lemma_wire_preserves_inv(
                            self.pulse,
                            pre,
                            target.nodes@,
                            last.op,
                            last.inputs@,
                        );
                        assert(pfact_views(last.outputs@).len() == last.outputs@.len());
                        assert(r->Ok_0@.len() == 1);
                        assert(outlet_valid(target.nodes@, r->Ok_0@[0]));
                        let mv2 = mv.push(r->Ok_0@);
                        assert(mv2[o.node as int] == mv[o.node as int]);
                        lemma_fact_at_mono(pre, target.nodes@, m);
                        assert(outlet_facts(pre, last.inputs@)[0] == fact_at(pre, m));
                        assert(last.outputs@[0]@ == pfact_views(last.outputs@)[0]);
                        assert(fact_at(target.nodes@, r->Ok_0@[0]) == spec_pulsed_output_facts(
                            last.op,
                            outlet_facts(pre, last.inputs@),
                        )->Ok_0[0]);
                    }
                }
                r
            },
            Op::Add => {
                if node.inputs.len() != 2 {
                    return Err(GraphError::Arity);
                }
                let oa = node.inputs[0];
                let ob = node.inputs[1];
                proof {
                    lemma_mapped_outlet(source.nodes@, target.nodes@, mv, node_id as int, 0);
                    lemma_mapped_outlet(source.nodes@, target.nodes@, mv, node_id as int, 1);
                    assert(mapping@[oa.node as int]@ == mv[oa.node as int]);
                    assert(mapping@[ob.node as int]@ == mv[ob.node as int]);
                }
                let a0 = mapping[oa.node][oa.slot];
                let b0 = mapping[ob.node][ob.slot];
                let ghost t0 = target.nodes@;
                let ghost fa = fact_at(t0, a0);
                let ghost fb = fact_at(t0, b0);
                let mut a = a0;
                let mut b = b0;
                let da = target.outlet_fact(a).delay;
                let db = target.outlet_fact(b).delay;
                if da < db {
                    let mut ins: Vec<OutletId> = Vec::new();
                    ins.push(a);
                    let ghost ins_v = ins@;
                    let ghost pre = target.nodes@;
                    match target.wire_node(node.name.clone(), Op::Delay(db - da), ins) {
                        Err(_) => {
                            proof {
                                assert(outlet_valid(pre, a));
                                assert(outlet_facts(pre, ins_v)[0] == fa);
                                assert(fa.delay == da);
                                assert(fa.delay + (db - da) == db);
                                assert(false);
                            }
                            vstd::pervasive::unreached()
                        },
                        Ok(outs) => {
                            proof {
                                let last = target.nodes@.last();
                                lemma_wire_preserves_inv(
                                    self.pulse,
                                    pre,
                                    target.nodes@,
                                    last.op,
                                    last.inputs@,
                                );
                                crate::translate::lemma_outlet_valid_mono(pre, target.nodes@, b);
                                lemma_fact_at_mono(pre, target.nodes@, a0);
                                lemma_fact_at_mono(pre, target.nodes@, b0);
                                assert(pfact_views(last.outputs@).len() == last.outputs@.len());
                                assert(outlet_facts(pre, last.inputs@)[0] == fa);
                                assert(last.outputs@[0]@ == pfact_views(last.outputs@)[0]);
                                assert(outs@[0].node == pre.len() && outs@[0].slot == 0);
                                assert(fact_at(target.nodes@, outs@[0]) == (PFactView {
                                    datum_type: fa.datum_type,
                                    shape: fa.shape,
                                    axis: fa.axis,
                                    dim: fa.dim,
                                    delay: (fa.delay + (db - da)) as usize,
                                }));
                            }
                            a = outs[0];
                        },
                    }
                } else if db < da {
                    let mut ins: Vec<OutletId> = Vec::new();
                    ins.push(b);
                    let ghost ins_v = ins@;
                    let ghost pre = target.nodes@;
                    match target.wire_node(node.name.clone(), Op::Delay(da - db), ins) {
                        Err(_) => {
                            proof {
                                assert(outlet_valid(pre, b));
                                assert(outlet_facts(pre, ins_v)[0] == fb);
                                assert(fb.delay == db);
                                assert(fb.delay + (da - db) == da);
                                assert(false);
                            }
                            vstd::pervasive::unreached()
                        },
                        Ok(outs) => {
                            proof {
                                let last = target.nodes@.last();
                                lemma_wire_preserves_inv(
                                    self.pulse,
                                    pre,
                                    target.nodes@,
                                    last.op,
                                    last.inputs@,
                                );
                                crate::translate::lemma_outlet_valid_mono(pre, target.nodes@, a);
                                lemma_fact_at_mono(pre, target.nodes@, a0);
                                lemma_fact_at_mono(pre, target.nodes@, b0);
                                assert(pfact_views(last.outputs@).len() == last.outputs@.len());
                                assert(outlet_facts(pre, last.inputs@)[0] == fb);
                                assert(last.outputs@[0]@ == pfact_views(last.outputs@)[0]);
                                assert(outs@[0].node == pre.len() && outs@[0].slot == 0);
                                assert(fact_at(target.nodes@, outs@[0]) == (PFactView {
                                    datum_type: fb.datum_type,
                                    shape: fb.shape,
                                    axis: fb.axis,
                                    dim: fb.dim,
                                    delay: (fb.delay + (da - db)) as usize,
                                }));
                            }
                            b = outs[0];
                        },
                    }
                }
                let ghost t1 = target.nodes@;
                let mut ins: Vec<OutletId> = Vec::new();
                ins.push(a);
                ins.push(b);
                let ghost ins_v2 = ins@;
                let r = target.wire_node(node.name.clone(), Op::Add, ins);
                proof {
                    assert(outlet_valid(t1, a) && outlet_valid(t1, b));
                    assert(outlet_facts(t1, ins_v2)[0] == fact_at(t1, a));
                    assert(outlet_facts(t1, ins_v2)[1] == fact_at(t1, b));
                    if da < db {
                        assert(fact_at(t1, a) == (PFactView {
                            datum_type: fa.datum_type,
                            shape: fa.shape,
                            axis: fa.axis,
                            dim: fa.dim,
                            delay: db,
                        }));
                        assert(fact_at(t1, b) == fb);
                    } else if db < da {
                        assert(fact_at(t1, b) == (PFactView {
                            datum_type: fb.datum_type,
                            shape: fb.shape,
                            axis: fb.axis,
                            dim: fb.dim,
                            delay: da,
                        }));
                        assert(fact_at(t1, a) == fa);
                    } else {
                        assert(fact_at(t1, a) == fa && fact_at(t1, b) == fb);
                    }
                    if r is Err {
                        let e = r->Err_0;
                        assert(spec_pulsed_output_facts(Op::Add, outlet_facts(t1, ins_v2))
                            == Err::<Seq<PFactView>, GraphError>(e));
                        assert(e == GraphError::ShapeMismatch);
                        assert(fact_at(t1, a) != fact_at(t1, b));
                        if fa.datum_type == fb.datum_type && fa.shape == fb.shape && fa.axis
                            == fb.axis && fa.dim == fb.dim {
                            assert(fact_at(t1, a) == fact_at(t1, b));
                            assert(false);
                        }
                    }
                    if r is Ok {
                        let last = target.nodes@.last();
                        assert(last.op == Op::Add);
                        lemma_wire_preserves_inv(
                            self.pulse,
                            t1,
                            target.nodes@,
                            last.op,
                            last.inputs@,
                        );
                        assert(pfact_views(last.outputs@).len() == last.outputs@.len());
                        assert(r->Ok_0@.len() == 1);
                        assert(outlet_valid(target.nodes@, r->Ok_0@[0]));
                        let ins_facts = outlet_facts(t1, last.inputs@);
                        assert(ins_facts[0] == fact_at(t1, a) && ins_facts[1] == fact_at(t1, b));
                        assert(ins_facts[0] == ins_facts[1]);
                        assert(last.outputs@[0]@ == pfact_views(last.outputs@)[0]);
                        assert(fact_at(target.nodes@, r->Ok_0@[0]) == ins_facts[0]);
                        lemma_fact_at_mono(t1, target.nodes@, a0);
                        lemma_fact_at_mono(t1, target.nodes@, b0);
                        assert(fact_at(target.nodes@, a0) == fa);
                        assert(fact_at(target.nodes@, b0) == fb);
                        assert(fa.datum_type == fb.datum_type && fa.shape == fb.shape && fa.axis
                            == fb.axis && fa.dim == fb.dim);
                        let mv2 = mv.push(r->Ok_0@);
                        assert(mv2[oa.node as int] == mv[oa.node as int]);
                        assert(mv2[ob.node as int] == mv[ob.node as int]);
                    }
                    lemma_prefix_trans(old(target).nodes@, t1, target.nodes@);
                }
                r
            },
            _ => Err(GraphError::NoPulsifier),
        }
    }
}

/// How a pulsed node's operation reads once the pulsing distinction is
/// discarded: a pulsed source becomes a plain source over the pulse shape,
/// and every other operation keeps its meaning.
pub open spec fn typed_op_corresponds(p: Op, t: Op) -> bool {
    match (p, t) {
        (Op::PulsedSource(f), Op::Source(g)) => g@ == (TFactView {
            datum_type: f.datum_type,
            shape: f.shape@,
        }),
        (Op::Source(f), Op::Source(g)) => g@ == f@,
        (Op::Const(c), Op::Const(d)) => d.0@ == c.0@,
        (Op::Add, Op::Add) => true,
        (Op::Delay(a), Op::Delay(b)) => a == b,
        (Op::Dummy, Op::Dummy) => true,
        _ => false,
    }
}

/// The plain operation standing for a pulsed node's operation.
fn to_typed_op(op: &Op) -> (r: Op)
    ensures
        typed_op_corresponds(*op, r),
{
    match op {
        Op::PulsedSource(f) => Op::Source(f.to_pulse_fact()),
        Op::Source(f) => Op::Source(f.duplicate()),
        Op::Const(c) => Op::Const(crate::ops::Const(c.0.duplicate())),
        Op::Add => Op::Add,
        Op::Delay(d) => Op::Delay(*d),
        Op::Dummy => Op::Dummy,
    }
}

/// An exact copy of a list of outlets.
fn copy_outlets(v: &Vec<OutletId>) -> (r: Vec<OutletId>)
    ensures
        r@ == v@,
{
    let mut out: Vec<OutletId> = Vec::new();
    let mut i: usize = 0;
    while i < v.len()
        invariant
            i <= v.len(),
            out@ == v@.take(i as int),
        decreases v.len() - i,
    {
        out.push(v[i]);
        i = i + 1;
    }
    proof {
        assert(out@ =~= v@);
    }
    out
}

/// The delay recorded at a graph's `k`-th designated output.
pub open spec fn output_delay(g: PulsedModel, k: int) -> usize {
    let o = g.outputs@[k];
    g.nodes@[o.node as int].outputs@[o.slot as int]@.delay
}

/// Building a pulsed graph out of a resolved streaming graph, and back.
pub trait PulsedModelExt: Sized {
    /// The pulsed graph this value is.
    spec fn model(self) -> PulsedModel;

    /// Pulsify a resolved graph for a pulse length.
    fn new(source: &TypedModel, pulse: usize) -> (r: Result<PulsedModel, GraphError>)
        requires
            source.wf(),
            pulse >= 1,
        ensures
            (match r {
                Ok(g) => {
                    &&& g.wf()
                    &&& delay_monotone(g.nodes@)
                    &&& facts_pulsed(g.nodes@, pulse)
                    &&& g.inputs@.len() == source.inputs@.len()
                    &&& g.outputs@.len() == source.outputs@.len()
                    &&& exists|m: Seq<Seq<OutletId>>|
                        {
                            &&& #[trigger] mapping_ok(source.nodes@, g.nodes@, m)
                            &&& m.len() == source.nodes@.len()
                            &&& forall|k: int|
                                0 <= k < source.inputs@.len() ==> g.inputs@[k] == ({
                                    let o = #[trigger] source.inputs@[k];
                                    m[o.node as int][o.slot as int]
                                })
                            &&& forall|k: int|
                                0 <= k < source.outputs@.len() ==> g.outputs@[k] == ({
                                    let o = #[trigger] source.outputs@[k];
                                    m[o.node as int][o.slot as int]
                                })
                            &&& forall|i: int|
                                0 <= i < source.nodes@.len() ==> #[trigger] (Pulsifier {
                                    pulse,
                                }).node_rel(source, i, m.take(i + 1), g.nodes@)
                        }
                },
                Err(e) => {
                    &&& e is AtNode
                    &&& exists|i: int, m: Seq<Seq<OutletId>>, nds: Seq<Node<PulsedFact>>|
                        {
                            &&& 0 <= i < source.nodes@.len()
                            &&& e->AtNode_node@ == source.nodes@[i].name@
                            &&& #[trigger] pulsify_node_fails(pulse, source, i, m, nds) == Some(
                                *e->AtNode_cause,
                            )
                            &&& m.len() == i
                            &&& mapping_ok(source.nodes@, nds, m)
                            &&& delay_monotone(nds)
                            &&& facts_pulsed(nds, pulse)
                            &&& forall|t: int|
                                0 <= t < i ==> #[trigger] (Pulsifier { pulse }).node_rel(
                                    source,
                                    t,
                                    m.take(t + 1),
                                    nds,
                                )
                        }
                },
            }),
            source.nodes@.len() == 0 ==> r is Ok,
    ;

    /// Pulsify a resolved graph and also hand back the complete mapping from
    /// every source outlet to its target outlet.
    fn new_with_mapping(source: &TypedModel, pulse: usize) -> (r: Result<
        (PulsedModel, Vec<Vec<OutletId>>),
        GraphError,
    >)
        requires
            source.wf(),
            pulse >= 1,
        ensures
            (match r {
                Ok((g, m)) => {
                    &&& g.wf()
                    &&& delay_monotone(g.nodes@)
                    &&& facts_pulsed(g.nodes@, pulse)
                    &&& m@.len() == source.nodes@.len()
                    &&& mapping_ok(source.nodes@, g.nodes@, mapping_views(m@))
                    &&& g.inputs@.len() == source.inputs@.len()
                    &&& forall|k: int|
                        0 <= k < source.inputs@.len() ==> g.inputs@[k] == ({
                            let o = #[trigger] source.inputs@[k];
                            mapping_views(m@)[o.node as int][o.slot as int]
                        })
                    &&& g.outputs@.len() == source.outputs@.len()
                    &&& forall|k: int|
                        0 <= k < source.outputs@.len() ==> g.outputs@[k] == ({
                            let o = #[trigger] source.outputs@[k];
                            mapping_views(m@)[o.node as int][o.slot as int]
                        })
                    &&& forall|i: int|
                        0 <= i < source.nodes@.len() ==> #[trigger] (Pulsifier { pulse }).node_rel(
                            source,
                            i,
                            mapping_views(m@).take(i + 1),
                            g.nodes@,
                        )
                },
                Err(e) => {
                    &&& e is AtNode
                    &&& exists|i: int, m: Seq<Seq<OutletId>>, nds: Seq<Node<PulsedFact>>|
                        {
                            &&& 0 <= i < source.nodes@.len()
                            &&& e->AtNode_node@ == source.nodes@[i].name@
                            &&& #[trigger] pulsify_node_fails(pulse, source, i, m, nds) == Some(
                                *e->AtNode_cause,
                            )
                            &&& m.len() == i
                            &&& mapping_ok(source.nodes@, nds, m)
                            &&& delay_monotone(nds)
                            &&& facts_pulsed(nds, pulse)
                            &&& forall|t: int|
                                0 <= t < i ==> #[trigger] (Pulsifier { pulse }).node_rel(
                                    source,
                                    t,
                                    m.take(t + 1),
                                    nds,
                                )
                        }
                },
            }),
            source.nodes@.len() == 0 ==> r is Ok,
    ;

    /// Convert a pulsed graph back to a plain resolved graph: the pulsing
    /// axis distinction is discarded, and the delay of every designated
    /// output is preserved as the graph property named `pulse.delay`.
    fn into_typed(self) -> (r: Result<TypedModel, GraphError>)
        requires
            self.model().wf(),
        ensures
            (match r {
                Ok(t) => {
                    &&& t.wf()
                    &&& t.nodes@.len() == self.model().nodes@.len()
                    &&& forall|i: int|
                        0 <= i < self.model().nodes@.len() ==> ({
                            let pn = self.model().nodes@[i];
                            let tn = #[trigger] t.nodes@[i];
                            &&& tn.name@ == pn.name@
                            &&& typed_op_corresponds(pn.op, tn.op)
                            &&& tn.inputs@ == pn.inputs@
                            &&& tn.outputs@.len() == pn.outputs@.len()
                            &&& forall|k: int|
                                0 <= k < tn.outputs@.len() ==> (#[trigger] tn.outputs@[k])@
                                    == (TFactView {
                                    datum_type: pn.outputs@[k]@.datum_type,
                                    shape: pn.outputs@[k]@.shape,
                                })
                        })
                    &&& t.inputs@ == self.model().inputs@
                    &&& t.outputs@ == self.model().outputs@
                    &&& forall|k: int|
                        0 <= k < self.model().outputs@.len() ==> output_delay(self.model(), k) <= i64::MAX
                    &&& t.properties@.len() == 1
                    &&& t.properties@[0].0@ == "pulse.delay"@
                    &&& t.properties@[0].1@.dt == crate::tensor::DatumType::I64
                    &&& t.properties@[0].1@.shape == seq![self.model().outputs@.len() as usize]
                    &&& t.properties@[0].1@.data.len() == self.model().outputs@.len()
                    &&& forall|k: int|
                        0 <= k < self.model().outputs@.len() ==> #[trigger] t.properties@[0].1@.data[k]
                            == output_delay(self.model(), k)
                },
                Err(e) => e == GraphError::Overflow && exists|k: int|
                    0 <= k < self.model().outputs@.len() && output_delay(self.model(), k) > i64::MAX,
            }),
    ;
}

impl PulsedModelExt for Graph<PulsedFact> {
    open spec fn model(self) -> PulsedModel {
        self
    }

    fn new(source: &TypedModel, pulse: usize) -> (r: Result<PulsedModel, GraphError>) {
        match PulsedModel::new_with_mapping(source, pulse) {
            Ok((g, m)) => {
                proof {
                    let mv = mapping_views(m@);
                    assert(mapping_ok(source.nodes@, g.nodes@, mv));
                }
                Ok(g)
            },
            Err(e) => Err(e),
        }
    }

    fn new_with_mapping(source: &TypedModel, pulse: usize) -> (r: Result<
        (PulsedModel, Vec<Vec<OutletId>>),
        GraphError,
    >) {
        let pulsifier = Pulsifier { pulse };
        let r = translate_model(&pulsifier, source);
        proof {
            if r is Err {
                let e = r->Err_0;
                let (i, m, nds): (int, Seq<Seq<OutletId>>, Seq<Node<PulsedFact>>) = choose|
                    i: int,
                    m: Seq<Seq<OutletId>>,
                    nds: Seq<Node<PulsedFact>>,
                |
                    {
                        &&& 0 <= i < source.nodes@.len()
                        &&& e->AtNode_node@ == source.nodes@[i].name@
                        &&& #[trigger] pulsifier.node_fails(source, i, m, nds) == Some(
                            *e->AtNode_cause,
                        )
                        &&& m.len() == i
                        &&& mapping_ok(source.nodes@, nds, m)
                        &&& pulsifier.inv(nds)
                        &&& forall|t: int|
                            0 <= t < i ==> #[trigger] pulsifier.node_rel(
                                source,
                                t,
                                m.take(t + 1),
                                nds,
                            )
                    };
                assert(pulsifier == (Pulsifier { pulse }));
                assert(pulsify_node_fails(pulse, source, i, m, nds) == Some(*e->AtNode_cause));
                assert(delay_monotone(nds) && facts_pulsed(nds, pulse));
                assert(forall|t: int|
                    0 <= t < i ==> #[trigger] (Pulsifier { pulse }).node_rel(
                        source,
                        t,
                        m.take(t + 1),
                        nds,
                    ));
            }
        }
        r
    }

    fn into_typed(self) -> (r: Result<TypedModel, GraphError>) {
        let mut typed: TypedModel = Graph::empty();
        let n = self.nodes.len();
        let mut i: usize = 0;
        while i < n
            invariant
                self.wf(),
                n == self.nodes@.len(),
                i <= n,
                typed.wf(),
                typed.nodes@.len() == i,
                typed.inputs@.len() == 0,
                typed.outputs@.len() == 0,
                typed.properties@.len() == 0,
                forall|t: int|
                    0 <= t < i ==> ({
                        let pn = self.nodes@[t];
                        let tn = #[trigger] typed.nodes@[t];
                        &&& tn.name@ == pn.name@
                        &&& typed_op_corresponds(pn.op, tn.op)
                        &&& tn.inputs@ == pn.inputs@
                        &&& tn.outputs@.len() == pn.outputs@.len()
                        &&& forall|k: int|
                            0 <= k < tn.outputs@.len() ==> (#[trigger] tn.outputs@[k])@
                                == (TFactView {
                                datum_type: pn.outputs@[k]@.datum_type,
                                shape: pn.outputs@[k]@.shape,
                            })
                    }),
            decreases n - i,
        {
            let node = &self.nodes[i];
            let top = to_typed_op(&node.op);
            let mut tfacts: Vec<TypedFact> = Vec::new();
            let mut k: usize = 0;
            while k < node.outputs.len()
                invariant
                    k <= node.outputs@.len(),
                    tfacts@.len() == k,
                    forall|t: int|
                        0 <= t < k ==> (#[trigger] tfacts@[t])@ == (TFactView {
                            datum_type: node.outputs@[t]@.datum_type,
                            shape: node.outputs@[t]@.shape,
                        }),
                decreases node.outputs@.len() - k,
            {
                tfacts.push(node.outputs[k].to_pulse_fact());
                k = k + 1;
            }
            let tins = copy_outlets(&node.inputs);
            proof {
                assert(crate::graph::node_wf(self.nodes@, i as int));
                assert forall|j: int| 0 <= j < tins@.len() implies outlet_valid(
                    typed.nodes@,
                    #[trigger] tins@[j],
                ) by {
                    let o = self.nodes@[i as int].inputs@[j];
                    assert(tins@[j] == o);
                    assert(o.node < i);
                    assert(typed.nodes@[o.node as int].outputs@.len() == self.nodes@[o.node as int].outputs@.len());
                }
            }
            match typed.add_node(node.name.clone(), top, tins, tfacts) {
                Err(_) => {
                    return vstd::pervasive::unreached();
                },
                Ok(_) => {},
            }
            i = i + 1;
        }

        let mut delays: Vec<i64> = Vec::new();
        let mut k: usize = 0;
        while k < self.outputs.len()
            invariant
                self.wf(),
                k <= self.outputs@.len(),
                delays@.len() == k,
                forall|t: int| 0 <= t < k ==> #[trigger] output_delay(self, t) <= i64::MAX,
                forall|t: int| 0 <= t < k ==> #[trigger] delays@[t] == output_delay(self, t),
            decreases self.outputs@.len() - k,
        {
            let o = self.outputs[k];
            let d = self.outlet_fact(o).delay;
            proof {
                assert(d == output_delay(self, k as int));
            }
            let du: u64 = d as u64;
            if du > i64::MAX as u64 {
                proof {
                    assert(output_delay(self, k as int) > i64::MAX);
                }
                return Err(GraphError::Overflow);
            }
            proof {
                assert(du == d && d <= i64::MAX);
                assert(du as i64 == d);
            }
            delays.push(du as i64);
            proof {
                assert(delays@[k as int] == d);
                assert(output_delay(self, k as int) <= i64::MAX);
            }
            k = k + 1;
        }

        let n_out = delays.len();
        let mut dshape: Vec<usize> = Vec::new();
        dshape.push(n_out);
        let delays_tensor = crate::tensor::Tensor {
            dt: crate::tensor::DatumType::I64,
            shape: dshape,
            data: delays,
        };
        proof {
            assert(delays_tensor@.shape =~= seq![self.outputs@.len() as usize]);
        }
        typed.inputs = copy_outlets(&self.inputs);
        typed.outputs = copy_outlets(&self.outputs);
        proof {
            assert forall|t: int| 0 <= t < typed.inputs@.len() implies outlet_valid(
                typed.nodes@,
                #[trigger] typed.inputs@[t],
            ) by {
                let o = self.inputs@[t];
                assert(outlet_valid(self.nodes@, o));
                assert(typed.nodes@[o.node as int].outputs@.len() == self.nodes@[o.node as int].outputs@.len());
            }
            assert forall|t: int| 0 <= t < typed.outputs@.len() implies outlet_valid(
                typed.nodes@,
                #[trigger] typed.outputs@[t],
            ) by {
                let o = self.outputs@[t];
                assert(outlet_valid(self.nodes@, o));
                assert(typed.nodes@[o.node as int].outputs@.len() == self.nodes@[o.node as int].outputs@.len());
            }
        }
        typed.properties.push(("pulse.delay".to_owned(), delays_tensor));
        Ok(typed)
    }
}

/// An elementwise operation adds no latency of its own: when none of its
/// inputs carries a delay, neither does its output.
pub proof fn lemma_elementwise_zero_delay(ins: Seq<PFactView>)
    requires
        spec_pulsed_output_facts(Op::Add, ins) is Ok,
        forall|j: int| 0 <= j < ins.len() ==> (#[trigger] ins[j]).delay == 0,
    ensures
        forall|k: int|
            0 <= k < spec_pulsed_output_facts(Op::Add, ins)->Ok_0.len() ==> (
            #[trigger] spec_pulsed_output_facts(Op::Add, ins)->Ok_0[k]).delay == 0,
{
    assert(ins[0].delay == 0);
}

} // verus!
