use streamgraph::dim::{stream_dim, TDim};
use streamgraph::error::GraphError;
use streamgraph::fact::TypedFact;
use streamgraph::graph::OutletId;
use streamgraph::pulse::{PulsedFact, StreamFact};
use streamgraph::pulsifier::{PulsedModel, PulsedModelExt, TypedModel};
use streamgraph::tensor::DatumType;

#[test]
fn test_source_must_stream() {
    let mut model = TypedModel::empty();
    let _a = model.add_source(
        "a".to_string(),
        TypedFact::dt_shape(
            DatumType::F32,
            vec![TDim::Fixed(1), TDim::Fixed(2), TDim::Fixed(3)],
        ),
    );
    model.auto_outputs();
    assert!(PulsedModel::new(&model, 4).is_err());

    let mut model = TypedModel::empty();
    let _a = model.add_source(
        "a".to_string(),
        TypedFact::dt_shape(
            DatumType::F32,
            vec![TDim::Fixed(1), stream_dim(), TDim::Fixed(3)],
        ),
    );
    model.auto_outputs();
    let pulse = PulsedModel::new(&model, 4).unwrap();
    assert_eq!(
        pulse.outlet_fact(OutletId::new(0, 0)).to_typed_fact(),
        TypedFact::dt_shape(
            DatumType::F32,
            vec![TDim::Fixed(1), TDim::Fixed(4), TDim::Fixed(3)],
        )
    );
}

#[test]
fn test_immediate() {
    let mut model = TypedModel::empty();
    let _a = model.add_source(
        "a".to_string(),
        TypedFact::dt_shape(
            DatumType::F32,
            vec![stream_dim(), TDim::Fixed(2), TDim::Fixed(3)],
        ),
    );
    model.auto_outputs();

    let pulse = PulsedModel::new(&model, 4).unwrap();

    assert_eq!(
        pulse.input_fact(0).to_typed_fact(),
        TypedFact::dt_shape(
            DatumType::F32,
            vec![TDim::Fixed(4), TDim::Fixed(2), TDim::Fixed(3)],
        )
    );
    assert_eq!(
        pulse.output_fact(0).to_typed_fact(),
        TypedFact::dt_shape(
            DatumType::F32,
            vec![TDim::Fixed(4), TDim::Fixed(2), TDim::Fixed(3)],
        )
    );
}

#[test]
fn source_rejection_names_the_node() {
    let mut model = TypedModel::empty();
    let _a = model.add_source(
        "batch".to_string(),
        TypedFact::dt_shape(DatumType::F32, vec![TDim::Fixed(2), TDim::Fixed(3)]),
    );
    model.auto_outputs();
    match PulsedModel::new(&model, 4) {
        Err(GraphError::AtNode { node, cause }) => {
            assert_eq!(node, "batch");
            assert_eq!(*cause, GraphError::NoStreamingDim);
        }
        other => panic!("expected a named rejection, got {:?}", other),
    }
}

#[test]
fn pulse_fact_round_trip() {
    let streaming = TypedFact::dt_shape(
        DatumType::F32,
        vec![stream_dim(), TDim::Fixed(2), TDim::Fixed(3)],
    );
    let pulsed = PulsedFact::from_tensor_fact_pulse(&streaming, 4).unwrap();
    assert_eq!(pulsed.axis, 0);
    assert_eq!(pulsed.dim, stream_dim());
    assert_eq!(pulsed.delay, 0);
    assert_eq!(pulsed.pulse(), 4);
    assert_eq!(
        pulsed.shape,
        vec![TDim::Fixed(4), TDim::Fixed(2), TDim::Fixed(3)]
    );

    // Back to the streaming shape, and pulsed again with the same pulse.
    let back = pulsed.to_streaming_fact();
    assert_eq!(back.shape, streaming.shape);
    let again = PulsedFact::from_tensor_fact_pulse(&back, 4).unwrap();
    assert_eq!(again.shape, pulsed.shape);
    assert_eq!(again.axis, pulsed.axis);
    assert_eq!(again.dim, pulsed.dim);
}

#[test]
fn stream_info_finds_the_one_streaming_axis() {
    let shape = vec![TDim::Fixed(1), stream_dim(), TDim::Fixed(3)];
    assert_eq!(shape.stream_info(), Some((1, stream_dim())));

    let no_stream = vec![TDim::Fixed(1), TDim::Fixed(3)];
    assert_eq!(no_stream.stream_info(), None);

    let two_streams = vec![stream_dim(), stream_dim()];
    assert_eq!(two_streams.stream_info(), None);
}

#[test]
fn pulse_fact_needs_a_streaming_dim() {
    let fixed = TypedFact::dt_shape(DatumType::F32, vec![TDim::Fixed(2), TDim::Fixed(3)]);
    assert_eq!(
        PulsedFact::from_tensor_fact_pulse(&fixed, 4),
        Err(GraphError::NoStreamingDim)
    );
}
