use streamgraph::dim::{stream_dim, TDim};
use streamgraph::error::GraphError;
use streamgraph::fact::TypedFact;
use streamgraph::ops::{Const, Op};
use streamgraph::graph::OutletId;
use streamgraph::pulse::PulsedFact;
use streamgraph::pulsifier::{PulsedModel, PulsedModelExt, TypedModel};
use streamgraph::tensor::{DatumType, Tensor};

fn streaming_fact() -> TypedFact {
    TypedFact::dt_shape(
        DatumType::F32,
        vec![stream_dim(), TDim::Fixed(2), TDim::Fixed(3)],
    )
}

#[test]
fn elementwise_graph_pulsifies_with_zero_delay() {
    // A single elementwise node over a streaming input of shape
    // [streaming, 2, 3], pulsed by 4: both outlets carry [4, 2, 3] and no
    // delay.
    let mut model = TypedModel::empty();
    let src = model.add_source("a".to_string(), streaming_fact());
    model
        .add_node(
            "sum".to_string(),
            Op::Add,
            vec![src, src],
            vec![streaming_fact()],
        )
        .unwrap();
    model.auto_outputs();

    let pulse = PulsedModel::new(&model, 4).unwrap();
    let input = pulse.input_fact(0);
    assert_eq!(
        input.shape,
        vec![TDim::Fixed(4), TDim::Fixed(2), TDim::Fixed(3)]
    );
    assert_eq!(input.delay, 0);
    let output = pulse.output_fact(0);
    assert_eq!(
        output.shape,
        vec![TDim::Fixed(4), TDim::Fixed(2), TDim::Fixed(3)]
    );
    assert_eq!(output.delay, 0);
}

#[test]
fn delays_accumulate_and_align() {
    // source -> delay(2) -> sum, with the source also wired straight into
    // the sum: the pulsifier must delay-compensate the direct edge, and the
    // output's delay is the maximum of its inputs'.
    let mut model = TypedModel::empty();
    let src = model.add_source("a".to_string(), streaming_fact());
    let delayed = model
        .add_node(
            "lag".to_string(),
            Op::Delay(2),
            vec![src],
            vec![streaming_fact()],
        )
        .unwrap();
    model
        .add_node(
            "sum".to_string(),
            Op::Add,
            vec![OutletId::new(delayed, 0), src],
            vec![streaming_fact()],
        )
        .unwrap();
    model.auto_outputs();

    let pulse = PulsedModel::new(&model, 4).unwrap();
    assert_eq!(pulse.output_fact(0).delay, 2);

    // Delay only accumulates: every node's output delay is at least each of
    // its inputs' delays.
    for node in &pulse.nodes {
        for inlet in &node.inputs {
            let producer = &pulse.nodes[inlet.node].outputs[inlet.slot];
            for fact in &node.outputs {
                assert!(fact.delay >= producer.delay);
            }
        }
    }
}

#[test]
fn into_typed_preserves_delays_as_a_property() {
    let mut model = TypedModel::empty();
    let src = model.add_source("a".to_string(), streaming_fact());
    let delayed = model
        .add_node(
            "lag".to_string(),
            Op::Delay(3),
            vec![src],
            vec![streaming_fact()],
        )
        .unwrap();
    let _ = delayed;
    model.auto_outputs();

    let pulse = PulsedModel::new(&model, 4).unwrap();
    let n_pulsed_nodes = pulse.nodes.len();
    let typed = pulse.into_typed().unwrap();
    assert_eq!(typed.properties.len(), 1);
    assert_eq!(typed.properties[0].0, "pulse.delay");
    let delays: &Tensor = &typed.properties[0].1;
    assert_eq!(delays.dt, DatumType::I64);
    assert_eq!(delays.shape, vec![1]);
    assert_eq!(delays.data, vec![3]);
    // The node structure survives with the pulse shapes as plain facts.
    assert_eq!(typed.nodes.len(), n_pulsed_nodes);
    assert_eq!(
        typed.nodes[1].outputs[0].shape,
        vec![TDim::Fixed(4), TDim::Fixed(2), TDim::Fixed(3)]
    );
}

#[test]
fn unregistered_operation_is_a_named_error() {
    let mut model = TypedModel::empty();
    let src = model.add_source("a".to_string(), streaming_fact());
    model
        .add_node(
            "mystery".to_string(),
            Op::Dummy,
            vec![src],
            vec![streaming_fact()],
        )
        .unwrap();
    model.auto_outputs();
    match PulsedModel::new(&model, 4) {
        Err(GraphError::AtNode { node, cause }) => {
            assert_eq!(node, "mystery");
            assert_eq!(*cause, GraphError::NoPulsifier);
        }
        other => panic!("expected a named error, got {:?}", other),
    }
}

#[test]
fn translation_maps_every_source_outlet() {
    let mut model = TypedModel::empty();
    let src = model.add_source("a".to_string(), streaming_fact());
    model
        .add_node(
            "sum".to_string(),
            Op::Add,
            vec![src, src],
            vec![streaming_fact()],
        )
        .unwrap();
    model.auto_outputs();

    let (pulse, mapping) = PulsedModel::new_with_mapping(&model, 4).unwrap();
    assert_eq!(mapping.len(), model.nodes.len());
    for (i, node) in model.nodes.iter().enumerate() {
        assert_eq!(mapping[i].len(), node.outputs.len());
        for outlet in &mapping[i] {
            assert!(outlet.node < pulse.nodes.len());
            assert!(outlet.slot < pulse.nodes[outlet.node].outputs.len());
        }
    }
}

#[test]
fn constant_operation_reports_itself() {
    let c = Const(Tensor {
        dt: DatumType::I64,
        shape: vec![1],
        data: vec![42],
    });
    assert_eq!(c.name(), "Const");
    assert!(c.is_stateless());
    let outs = c.eval();
    assert_eq!(outs.len(), 1);
    assert_eq!(outs[0].data, vec![42]);
    let facts = c.output_facts();
    assert_eq!(
        facts[0],
        TypedFact::dt_shape(DatumType::I64, vec![TDim::Fixed(1)])
    );
    assert_eq!(Op::Const(c).name(), "Const");
}

#[test]
fn empty_graph_pulsifies_trivially() {
    let model = TypedModel::empty();
    let pulse = PulsedModel::new(&model, 4).unwrap();
    assert_eq!(pulse.nodes.len(), 0);
    assert_eq!(pulse.inputs.len(), 0);
    assert_eq!(pulse.outputs.len(), 0);
}

#[test]
fn wire_node_accepts_valid_inputs_and_rejects_missing_ones() {
    let mut g = PulsedModel::empty();
    let fact = PulsedFact::from_tensor_fact_pulse(&streaming_fact(), 4).unwrap();
    let outs = g
        .wire_node("in".to_string(), Op::PulsedSource(fact), vec![])
        .unwrap();
    assert_eq!(outs, vec![OutletId::new(0, 0)]);
    // A delay over the valid outlet is owed to succeed.
    let outs2 = g
        .wire_node("lag".to_string(), Op::Delay(1), vec![outs[0]])
        .unwrap();
    assert_eq!(outs2, vec![OutletId::new(1, 0)]);
    assert_eq!(g.nodes[1].outputs[0].delay, 1);
    // A reference to a missing outlet is the invalid-outlet error.
    assert_eq!(
        g.wire_node("bad".to_string(), Op::Delay(1), vec![OutletId::new(9, 0)]),
        Err(GraphError::InvalidOutlet)
    );
}
