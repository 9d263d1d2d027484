//! The generic graph-to-graph translator: a single forward pass in
//! dependency order over a source graph, asking a pluggable strategy to emit
//! the target outlets standing for each source node's outputs, and producing
//! a complete source-outlet to target-outlet mapping. The source's
//! designated inputs and outputs are carried through the same mapping.

use vstd::prelude::*;

use crate::error::GraphError;
use crate::graph::{outlet_valid, Graph, Node, OutletId};

verus! {

/// The mathematical value of an outlet mapping: for every source node, the
/// target outlet standing for each of its output slots.
pub open spec fn mapping_views(mapping: Seq<Vec<OutletId>>) -> Seq<Seq<OutletId>> {
    mapping.map_values(|v: Vec<OutletId>| v@)
}

/// A mapping covers one target outlet per source output slot, each valid in
/// the target.
pub open spec fn mapping_ok<FS, FT>(
    source: Seq<Node<FS>>,
    target: Seq<Node<FT>>,
    mapping: Seq<Seq<OutletId>>,
) -> bool {
    &&& forall|i: int|
        0 <= i < mapping.len() ==> (#[trigger] mapping[i]).len() == source[i].outputs@.len()
    &&& forall|i: int, j: int|
        0 <= i < mapping.len() && 0 <= j < mapping[i].len() ==> outlet_valid(
            target,
            #[trigger] mapping[i][j],
        )
}

/// An outlet that is valid for a prefix of the nodes is valid for the whole.
pub proof fn lemma_outlet_valid_mono<FT>(a: Seq<Node<FT>>, b: Seq<Node<FT>>, o: OutletId)
    requires
        a.is_prefix_of(b),
        outlet_valid(a, o),
    ensures
        outlet_valid(b, o),
{
    assert(b[o.node as int] == b.subrange(0, a.len() as int)[o.node as int]);
}

/// For any source graph successfully translated, every source outlet has a
/// mapping entry, valid in the target.
pub proof fn lemma_translation_total<FS, FT>(
    source: Seq<Node<FS>>,
    target: Seq<Node<FT>>,
    mapping: Seq<Seq<OutletId>>,
    o: OutletId,
)
    requires
        mapping_ok(source, target, mapping),
        mapping.len() == source.len(),
        outlet_valid(source, o),
    ensures
        mapping[o.node as int].len() == source[o.node as int].outputs@.len(),
        outlet_valid(target, mapping[o.node as int][o.slot as int]),
{
}

/// A translation strategy: what to emit in the target graph for one source
/// node. `inv` is whatever the strategy maintains over the target's nodes;
/// the pass establishes it on the finished graph.
pub trait Translate<FS, FT> {
    spec fn inv(&self, nodes: Seq<Node<FT>>) -> bool;

    /// What the strategy guarantees of one translated node: how the target
    /// outlets standing for it, under the mapping built so far, relate to
    /// the source node. The mapping argument covers the source nodes up to
    /// and including this one.
    spec fn node_rel(
        &self,
        source: &Graph<FS>,
        node_id: int,
        mapping: Seq<Seq<OutletId>>,
        nodes: Seq<Node<FT>>,
    ) -> bool;

    /// Whether translating this node must fail, and how: the one failure the
    /// strategy reports for this node given the target built and mapping
    /// accumulated so far, or `None` when translation is owed to succeed.
    spec fn node_fails(
        &self,
        source: &Graph<FS>,
        node_id: int,
        mapping: Seq<Seq<OutletId>>,
        nodes: Seq<Node<FT>>,
    ) -> Option<GraphError>;

    /// The per-node guarantee survives appending nodes to the target.
    proof fn node_rel_mono(
        &self,
        source: &Graph<FS>,
        node_id: int,
        mapping: Seq<Seq<OutletId>>,
        a: Seq<Node<FT>>,
        b: Seq<Node<FT>>,
    )
        requires
            self.node_rel(source, node_id, mapping, a),
            a.is_prefix_of(b),
        ensures
            self.node_rel(source, node_id, mapping, b),
    ;

    /// Emit target nodes standing for one source node and return the target
    /// outlets that correspond, position for position, to its output slots.
    /// The mapping already covers every earlier node's outlets.
    fn translate_node(
        &self,
        source: &Graph<FS>,
        node_id: usize,
        target: &mut Graph<FT>,
        mapping: &Vec<Vec<OutletId>>,
    ) -> (r: Result<Vec<OutletId>, GraphError>)
        requires
            source.wf(),
            node_id < source.nodes@.len(),
            old(target).wf(),
            self.inv(old(target).nodes@),
            mapping@.len() == node_id,
            mapping_ok(source.nodes@, old(target).nodes@, mapping_views(mapping@)),
        ensures
            final(target).wf(),
            self.inv(final(target).nodes@),
            old(target).nodes@.is_prefix_of(final(target).nodes@),
            final(target).inputs@ == old(target).inputs@,
            final(target).outputs@ == old(target).outputs@,
            final(target).properties@ == old(target).properties@,
            r is Ok ==> r->Ok_0@.len() == source.nodes@[node_id as int].outputs@.len() && (forall|
                j: int,
            |
                0 <= j < r->Ok_0@.len() ==> outlet_valid(
                    final(target).nodes@,
                    #[trigger] r->Ok_0@[j],
                )) && self.node_rel(
                source,
                node_id as int,
                mapping_views(mapping@).push(r->Ok_0@),
                final(target).nodes@,
            ),
            (match r {
                Ok(_) => self.node_fails(
                    source,
                    node_id as int,
                    mapping_views(mapping@),
                    old(target).nodes@,
                ) is None,
                Err(e) => self.node_fails(
                    source,
                    node_id as int,
                    mapping_views(mapping@),
                    old(target).nodes@,
                ) == Some(e),
            }),
    ;
}

/// Translate a whole source graph: visit its nodes in dependency order, let
/// the strategy emit target nodes for each, and mirror the source's
/// designated inputs and outputs through the accumulated mapping. Any single
/// node's failure aborts the pass with an error naming that node.
pub fn translate_model<FS, FT, T: Translate<FS, FT>>(strategy: &T, source: &Graph<FS>) -> (r:
    Result<(Graph<FT>, Vec<Vec<OutletId>>), GraphError>)
    requires
        source.wf(),
        strategy.inv(Seq::<Node<FT>>::empty()),
    ensures
        (match r {
            Ok((target, mapping)) => {
                &&& target.wf()
                &&& strategy.inv(target.nodes@)
                &&& mapping@.len() == source.nodes@.len()
                &&& mapping_ok(source.nodes@, target.nodes@, mapping_views(mapping@))
                &&& target.inputs@.len() == source.inputs@.len()
                &&& forall|k: int|
                    0 <= k < source.inputs@.len() ==> target.inputs@[k] == ({
                        let o = #[trigger] source.inputs@[k];
                        mapping_views(mapping@)[o.node as int][o.slot as int]
                    })
                &&& target.outputs@.len() == source.outputs@.len()
                &&& forall|k: int|
                    0 <= k < source.outputs@.len() ==> target.outputs@[k] == ({
                        let o = #[trigger] source.outputs@[k];
                        mapping_views(mapping@)[o.node as int][o.slot as int]
                    })
                &&& target.properties@.len() == 0
                &&& forall|i: int|
                    0 <= i < source.nodes@.len() ==> #[trigger] strategy.node_rel(
                        source,
                        i,
                        mapping_views(mapping@).take(i + 1),
                        target.nodes@,
                    )
            },
            Err(e) => {
                &&& e is AtNode
                &&& exists|i: int, m: Seq<Seq<OutletId>>, nds: Seq<Node<FT>>|
                    {
                        &&& 0 <= i < source.nodes@.len()
                        &&& e->AtNode_node@ == source.nodes@[i].name@
                        &&& #[trigger] strategy.node_fails(source, i, m, nds) == Some(
                            *e->AtNode_cause,
                        )
                        &&& m.len() == i
                        &&& mapping_ok(source.nodes@, nds, m)
                        &&& strategy.inv(nds)
                        &&& forall|t: int|
                            0 <= t < i ==> #[trigger] strategy.node_rel(
                                source,
                                t,
                                m.take(t + 1),
                                nds,
                            )
                    }
            },
        }),
        source.nodes@.len() == 0 ==> r is Ok,
{
    let mut target: Graph<FT> = Graph::empty();
    proof {
        assert(target.nodes@ =~= Seq::<Node<FT>>::empty());
    }
    let mut mapping: Vec<Vec<OutletId>> = Vec::new();
    let n = source.nodes.len();
    let mut i: usize = 0;
    while i < n
        invariant
            source.wf(),
            strategy.inv(Seq::<Node<FT>>::empty()),
            n == source.nodes@.len(),
            i <= n,
            mapping@.len() == i,
            target.wf(),
            strategy.inv(target.nodes@),
            target.inputs@.len() == 0,
            target.outputs@.len() == 0,
            target.properties@.len() == 0,
            mapping_ok(source.nodes@, target.nodes@, mapping_views(mapping@)),
            forall|t: int|
                0 <= t < i ==> #[trigger] strategy.node_rel(
                    source,
                    t,
                    mapping_views(mapping@).take(t + 1),
                    target.nodes@,
                ),
        decreases n - i,
    {
        let ghost pre_nodes = target.nodes@;
        let ghost pre_mapping = mapping_views(mapping@);
        match strategy.translate_node(source, i, &mut target, &mapping) {
            Err(e) => {
                let ghost e0 = e;
                let r = Err(e.at_node(source.nodes[i].name.clone()));
                proof {
                    let wrapped = r->Err_0;
                    assert(*wrapped->AtNode_cause == e0);
                    assert(strategy.node_fails(
                        source,
                        i as int,
                        mapping_views(mapping@),
                        pre_nodes,
                    ) == Some(*wrapped->AtNode_cause));
                }
                return r;
            },
            Ok(outs) => {
                let ghost outs_v = outs@;
                mapping.push(outs);
                proof {
                    let mv = mapping_views(mapping@);
                    assert(mv =~= pre_mapping.push(mapping@.last()@));
                    assert forall|a: int, b: int|
                        0 <= a < mv.len() && 0 <= b < mv[a].len() implies outlet_valid(
                        target.nodes@,
                        #[trigger] mv[a][b],
                    ) by {
                        if a < pre_mapping.len() {
                            assert(mv[a] == pre_mapping[a]);
                            lemma_outlet_valid_mono(pre_nodes, target.nodes@, mv[a][b]);
                        }
                    }
                    assert(mv.take(i + 1) =~= pre_mapping.push(outs_v));
                    assert(strategy.node_rel(source, i as int, mv.take(i + 1), target.nodes@));
                    assert forall|t: int| 0 <= t < i + 1 implies #[trigger] strategy.node_rel(
                        source,
                        t,
                        mv.take(t + 1),
                        target.nodes@,
                    ) by {
                        if t < i {
                            assert(mv.take(t + 1) =~= pre_mapping.take(t + 1));
                            strategy.node_rel_mono(
                                source,
                                t,
                                pre_mapping.take(t + 1),
                                pre_nodes,
                                target.nodes@,
                            );
                        }
                    }
                }
            },
        }
        i = i + 1;
    }

    let mut t_inputs: Vec<OutletId> = Vec::new();
    let mut k: usize = 0;
    while k < source.inputs.len()
        invariant
            source.wf(),
            mapping@.len() == source.nodes@.len(),
            mapping_ok(source.nodes@, target.nodes@, mapping_views(mapping@)),
            k <= source.inputs@.len(),
            t_inputs@.len() == k,
            forall|t: int|
                0 <= t < k ==> t_inputs@[t] == ({
                    let o = #[trigger] source.inputs@[t];
                    mapping_views(mapping@)[o.node as int][o.slot as int]
                }),
            forall|t: int|
                0 <= t < k ==> outlet_valid(target.nodes@, #[trigger] t_inputs@[t]),
        decreases source.inputs@.len() - k,
    {
        let o = source.inputs[k];
        proof {
            assert(outlet_valid(source.nodes@, o));
            assert(mapping_views(mapping@)[o.node as int] == mapping@[o.node as int]@);
            assert(outlet_valid(
                target.nodes@,
                mapping_views(mapping@)[o.node as int][o.slot as int],
            ));
        }
        t_inputs.push(mapping[o.node][o.slot]);
        k = k + 1;
    }

    let mut t_outputs: Vec<OutletId> = Vec::new();
    let mut k: usize = 0;
    while k < source.outputs.len()
        invariant
            source.wf(),
            mapping@.len() == source.nodes@.len(),
            mapping_ok(source.nodes@, target.nodes@, mapping_views(mapping@)),
            k <= source.outputs@.len(),
            t_outputs@.len() == k,
            forall|t: int|
                0 <= t < k ==> t_outputs@[t] == ({
                    let o = #[trigger] source.outputs@[t];
                    mapping_views(mapping@)[o.node as int][o.slot as int]
                }),
            forall|t: int|
                0 <= t < k ==> outlet_valid(target.nodes@, #[trigger] t_outputs@[t]),
        decreases source.outputs@.len() - k,
    {
        let o = source.outputs[k];
        proof {
            assert(outlet_valid(source.nodes@, o));
            assert(mapping_views(mapping@)[o.node as int] == mapping@[o.node as int]@);
            assert(outlet_valid(
                target.nodes@,
                mapping_views(mapping@)[o.node as int][o.slot as int],
            ));
        }
        t_outputs.push(mapping[o.node][o.slot]);
        k = k + 1;
    }

    target.inputs = t_inputs;
    target.outputs = t_outputs;
    proof {
        assert forall|i: int| 0 <= i < source.nodes@.len() implies #[trigger] strategy.node_rel(
            source,
            i,
            mapping_views(mapping@).take(i + 1),
            target.nodes@,
        ) by {}
    }
    Ok((target, mapping))
}

} // verus!
