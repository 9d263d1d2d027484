//! The dataflow graph: an ordered collection of nodes, each carrying an
//! operation, the outlets its inputs consume, and one fact per output slot;
//! plus designated input and output outlets and named graph properties.
//! Nodes are only ever appended, and every edge points to an earlier node, so
//! a graph is a DAG whose node order is a topological order.

use vstd::prelude::*;

use crate::error::GraphError;
use crate::ops::Op;
use crate::tensor::Tensor;

verus! {

/// A value-producing point: an output slot of a node. It may fan out to any
/// number of consumers.
#[derive(Clone, Copy, PartialEq, Eq, Structural, Debug)]
pub struct OutletId {
    pub node: usize,
    pub slot: usize,
}

impl OutletId {
    pub fn new(node: usize, slot: usize) -> (r: OutletId)
        ensures
            r == (OutletId { node, slot }),
    {
        OutletId { node, slot }
    }
}

/// One node: its dense id, its unique human-readable name, its operation,
/// the producer outlet of each of its inputs in order, and one fact per
/// output slot.
#[derive(Debug)]
pub struct Node<F> {
    pub id: usize,
    pub name: String,
    pub op: Op,
    pub inputs: Vec<OutletId>,
    pub outputs: Vec<F>,
}

/// Whether an outlet points at an existing output slot.
pub open spec fn outlet_valid<F>(nodes: Seq<Node<F>>, o: OutletId) -> bool {
    o.node < nodes.len() && o.slot < nodes[o.node as int].outputs@.len()
}

/// A node is well placed when its id is its position and each of its inputs
/// consumes an outlet of a strictly earlier node.
pub open spec fn node_wf<F>(nodes: Seq<Node<F>>, i: int) -> bool {
    &&& nodes[i].id == i
    &&& forall|j: int|
        0 <= j < nodes[i].inputs@.len() ==> (#[trigger] nodes[i].inputs@[j]).node < i
            && nodes[i].inputs@[j].slot < nodes[nodes[i].inputs@[j].node as int].outputs@.len()
}

pub open spec fn nodes_wf<F>(nodes: Seq<Node<F>>) -> bool {
    forall|i: int| 0 <= i < nodes.len() ==> node_wf(nodes, i)
}

/// Whether some node consumes the outlet.
pub open spec fn consumed<F>(nodes: Seq<Node<F>>, o: OutletId) -> bool {
    exists|i: int, j: int|
        0 <= i < nodes.len() && 0 <= j < nodes[i].inputs@.len() && (#[trigger] nodes[i].inputs@[j])
            == o
}

/// A dataflow graph over a fact type `F`.
#[derive(Debug)]
pub struct Graph<F> {
    pub nodes: Vec<Node<F>>,
    pub inputs: Vec<OutletId>,
    pub outputs: Vec<OutletId>,
    pub properties: Vec<(String, Tensor)>,
}

impl<F> Graph<F> {
    /// Every edge and every designated input and output points at an
    /// existing outlet of an earlier node.
    pub open spec fn wf(self) -> bool {
        &&& nodes_wf(self.nodes@)
        &&& forall|k: int|
            0 <= k < self.inputs@.len() ==> outlet_valid(self.nodes@, #[trigger] self.inputs@[k])
        &&& forall|k: int|
            0 <= k < self.outputs@.len() ==> outlet_valid(self.nodes@, #[trigger] self.outputs@[k])
    }

    /// An empty graph.
    pub fn empty() -> (r: Graph<F>)
        ensures
            r.nodes@.len() == 0,
            r.inputs@.len() == 0,
            r.outputs@.len() == 0,
            r.properties@.len() == 0,
            r.wf(),
    {
        Graph { nodes: Vec::new(), inputs: Vec::new(), outputs: Vec::new(), properties: Vec::new() }
    }

    /// Append a node consuming the given outlets, which must already exist.
    pub fn add_node(&mut self, name: String, op: Op, inputs: Vec<OutletId>, outputs: Vec<F>) -> (r:
        Result<usize, GraphError>)
        requires
            old(self).wf(),
        ensures
            final(self).wf(),
            (match r {
                Ok(id) => {
                    &&& id == old(self).nodes@.len()
                    &&& final(self).nodes@ == old(self).nodes@.push(
                        Node { id: id, name, op, inputs, outputs },
                    )
                    &&& final(self).inputs@ == old(self).inputs@
                    &&& final(self).outputs@ == old(self).outputs@
                    &&& final(self).properties@ == old(self).properties@
                    &&& forall|j: int|
                        0 <= j < inputs@.len() ==> outlet_valid(
                            old(self).nodes@,
                            #[trigger] inputs@[j],
                        )
                },
                Err(e) => {
                    &&& *final(self) == *old(self)
                    &&& e == GraphError::InvalidOutlet
                    &&& exists|j: int|
                        0 <= j < inputs@.len() && !outlet_valid(
                            old(self).nodes@,
                            #[trigger] inputs@[j],
                        )
                },
            }),
    {
        let id = self.nodes.len();
        let mut j: usize = 0;
        while j < inputs.len()
            invariant
                j <= inputs@.len(),
                id == self.nodes@.len(),
                *self == *old(self),
                self.wf(),
                forall|k: int| 0 <= k < j ==> outlet_valid(self.nodes@, #[trigger] inputs@[k]),
            decreases inputs@.len() - j,
        {
            let o = inputs[j];
            if o.node >= self.nodes.len() {
                return Err(GraphError::InvalidOutlet);
            }
            if o.slot >= self.nodes[o.node].outputs.len() {
                return Err(GraphError::InvalidOutlet);
            }
            j = j + 1;
        }
        let node = Node { id, name, op, inputs, outputs };
        let ghost old_nodes = self.nodes@;
        self.nodes.push(node);
        proof {
            assert forall|i: int| 0 <= i < self.nodes@.len() implies node_wf(self.nodes@, i) by {
                assert(node_wf(old_nodes, i) || i == old_nodes.len());
                assert(forall|t: int|
                    0 <= t < old_nodes.len() ==> #[trigger] self.nodes@[t] == old_nodes[t]);
            }
        }
        Ok(id)
    }

    /// The number of nodes.
    pub fn node_count(&self) -> (r: usize)
        ensures
            r == self.nodes@.len(),
    {
        self.nodes.len()
    }

    /// The fact carried by an outlet.
    pub fn outlet_fact(&self, o: OutletId) -> (r: &F)
        requires
            outlet_valid(self.nodes@, o),
        ensures
            *r == self.nodes@[o.node as int].outputs@[o.slot as int],
    {
        &self.nodes[o.node].outputs[o.slot]
    }

    /// The fact carried by the graph's `ix`-th designated input.
    pub fn input_fact(&self, ix: usize) -> (r: &F)
        requires
            self.wf(),
            ix < self.inputs@.len(),
        ensures
            ({
                let o = self.inputs@[ix as int];
                *r == self.nodes@[o.node as int].outputs@[o.slot as int]
            }),
    {
        let o = self.inputs[ix];
        self.outlet_fact(o)
    }

    /// The fact carried by the graph's `ix`-th designated output.
    pub fn output_fact(&self, ix: usize) -> (r: &F)
        requires
            self.wf(),
            ix < self.outputs@.len(),
        ensures
            ({
                let o = self.outputs@[ix as int];
                *r == self.nodes@[o.node as int].outputs@[o.slot as int]
            }),
    {
        let o = self.outputs[ix];
        self.outlet_fact(o)
    }

    /// Whether some node consumes the outlet.
    fn is_consumed(&self, o: OutletId) -> (r: bool)
        ensures
            r == consumed(self.nodes@, o),
    {
        let mut i: usize = 0;
        while i < self.nodes.len()
            invariant
                i <= self.nodes@.len(),
                !(exists|i2: int, j2: int|
                    0 <= i2 < i && 0 <= j2 < self.nodes@[i2].inputs@.len() && (
                    #[trigger] self.nodes@[i2].inputs@[j2]) == o),
            decreases self.nodes@.len() - i,
        {
            let node_inputs = &self.nodes[i].inputs;
            let mut j: usize = 0;
            while j < node_inputs.len()
                invariant
                    j <= node_inputs@.len(),
                    node_inputs@ == self.nodes@[i as int].inputs@,
                    i < self.nodes@.len(),
                    !(exists|j2: int|
                        0 <= j2 < j && (#[trigger] self.nodes@[i as int].inputs@[j2]) == o),
                decreases node_inputs@.len() - j,
            {
                let c = node_inputs[j];
                if c.node == o.node && c.slot == o.slot {
                    return true;
                }
                j = j + 1;
            }
            i = i + 1;
        }
        false
    }

    /// Declare as the graph's outputs every outlet no node consumes, in
    /// order of node and slot.
    pub fn auto_outputs(&mut self)
        requires
            old(self).wf(),
        ensures
            final(self).wf(),
            final(self).nodes@ == old(self).nodes@,
            final(self).inputs@ == old(self).inputs@,
            final(self).properties@ == old(self).properties@,
            forall|k: int|
                0 <= k < final(self).outputs@.len() ==> outlet_valid(
                    old(self).nodes@,
                    #[trigger] final(self).outputs@[k],
                ) && !consumed(old(self).nodes@, final(self).outputs@[k]),
            forall|o: OutletId|
                outlet_valid(old(self).nodes@, o) && !consumed(old(self).nodes@, o) ==> exists|
                    k: int,
                |
                    0 <= k < final(self).outputs@.len() && final(self).outputs@[k] == o,
            forall|k1: int, k2: int|
                0 <= k1 < k2 < final(self).outputs@.len() ==> ({
                    let a = #[trigger] final(self).outputs@[k1];
                    let b = #[trigger] final(self).outputs@[k2];
                    a.node < b.node || (a.node == b.node && a.slot < b.slot)
                }),
    {
        let ghost nodes0 = self.nodes@;
        let mut outs: Vec<OutletId> = Vec::new();
        let mut i: usize = 0;
        while i < self.nodes.len()
            invariant
                self.wf(),
                self.nodes@ == nodes0,
                i <= nodes0.len(),
                forall|k: int|
                    0 <= k < outs@.len() ==> outlet_valid(nodes0, #[trigger] outs@[k]) && !consumed(
                        nodes0,
                        outs@[k],
                    ),
                forall|o: OutletId|
                    outlet_valid(nodes0, o) && !consumed(nodes0, o) && o.node < i ==> exists|k: int|
                        0 <= k < outs@.len() && outs@[k] == o,
                forall|k: int| 0 <= k < outs@.len() ==> (#[trigger] outs@[k]).node < i,
                forall|k1: int, k2: int|
                    0 <= k1 < k2 < outs@.len() ==> ({
                        let a = #[trigger] outs@[k1];
                        let b = #[trigger] outs@[k2];
                        a.node < b.node || (a.node == b.node && a.slot < b.slot)
                    }),
            decreases nodes0.len() - i,
        {
            let n_slots = self.nodes[i].outputs.len();
            let mut s: usize = 0;
            while s < n_slots
                invariant
                    self.wf(),
                    self.nodes@ == nodes0,
                    i < nodes0.len(),
                    s <= n_slots,
                    n_slots == nodes0[i as int].outputs@.len(),
                    forall|k: int|
                        0 <= k < outs@.len() ==> outlet_valid(nodes0, #[trigger] outs@[k])
                            && !consumed(nodes0, outs@[k]),
                    forall|o: OutletId|
                        outlet_valid(nodes0, o) && !consumed(nodes0, o) && (o.node < i || (o.node
                            == i && o.slot < s)) ==> exists|k: int|
                            0 <= k < outs@.len() && outs@[k] == o,
                    forall|k: int|
                        0 <= k < outs@.len() ==> (#[trigger] outs@[k]).node < i || (outs@[k].node
                            == i && outs@[k].slot < s),
                    forall|k1: int, k2: int|
                        0 <= k1 < k2 < outs@.len() ==> (outs@[k1].node < outs@[k2].node || (
                        outs@[k1].node == outs@[k2].node && outs@[k1].slot < outs@[k2].slot)),
                decreases n_slots - s,
            {
                let o = OutletId { node: i, slot: s };
                let ghost old_outs = outs@;
                if !self.is_consumed(o) {
                    outs.push(o);
                    proof {
                        assert forall|q: OutletId|
                            outlet_valid(nodes0, q) && !consumed(nodes0, q) && (q.node < i || (
                            q.node == i && q.slot < s + 1)) implies exists|k: int|
                            0 <= k < outs@.len() && outs@[k] == q by {
                            if q.node < i || (q.node == i && q.slot < s) {
                                let k = choose|k: int|
                                    0 <= k < old_outs.len() && old_outs[k] == q;
                                assert(outs@[k] == q);
                            } else {
                                assert(q == o);
                                assert(outs@[outs@.len() - 1] == q);
                            }
                        }
                    }
                } else {
                    proof {
                        assert forall|q: OutletId|
                            outlet_valid(nodes0, q) && !consumed(nodes0, q) && (q.node < i || (
                            q.node == i && q.slot < s + 1)) implies exists|k: int|
                            0 <= k < outs@.len() && outs@[k] == q by {
                            if q.node < i || (q.node == i && q.slot < s) {
                                let k = choose|k: int|
                                    0 <= k < old_outs.len() && old_outs[k] == q;
                                assert(outs@[k] == q);
                            } else {
                                assert(q == o);
                            }
                        }
                    }
                }
                s = s + 1;
            }
            i = i + 1;
        }
        let ghost outs_v = outs@;
        self.outputs = outs;
        proof {
            assert forall|q: OutletId| outlet_valid(nodes0, q) && !consumed(nodes0, q) implies
                exists|k: int| 0 <= k < self.outputs@.len() && self.outputs@[k] == q by {
                assert(q.node < nodes0.len());
                let k = choose|k: int| 0 <= k < outs_v.len() && outs_v[k] == q;
                assert(self.outputs@[k] == q);
            }
        }
    }
}

} // verus!
