use streamgraph::dim::{stream_dim, stream_symbol, TDim};
use streamgraph::error::GraphError;
use streamgraph::fact::{InferenceFact, TypedFact};
use streamgraph::factoid::Factoid;
use streamgraph::graph::OutletId;
use streamgraph::ops::Op;
use streamgraph::pulsifier::TypedModel;
use streamgraph::tensor::{DatumType, Tensor};

fn fact() -> TypedFact {
    TypedFact::dt_shape(DatumType::I64, vec![TDim::Fixed(2)])
}

#[test]
fn add_node_rejects_missing_outlets() {
    let mut model = TypedModel::empty();
    let r = model.add_node(
        "n".to_string(),
        Op::Add,
        vec![OutletId::new(7, 0)],
        vec![fact()],
    );
    assert_eq!(r, Err(GraphError::InvalidOutlet));
}

#[test]
fn auto_outputs_picks_unconsumed_outlets_in_order() {
    let mut model = TypedModel::empty();
    let a = model.add_source("a".to_string(), fact());
    let b = model.add_source("b".to_string(), fact());
    // A node consuming only `a`: `b` and the new node's outlet stay free.
    let n = model
        .add_node("n".to_string(), Op::Delay(1), vec![a], vec![fact()])
        .unwrap();
    model.auto_outputs();
    assert_eq!(model.outputs, vec![b, OutletId::new(n, 0)]);
}

#[test]
fn dims_tell_what_they_are() {
    assert_eq!(TDim::Fixed(1).to_usize(), Some(1));
    assert!(TDim::Fixed(1).is_one());
    assert!(!TDim::Fixed(2).is_one());
    assert_eq!(stream_dim().to_usize(), None);
    assert!(stream_dim().has_symbol(stream_symbol()));
    assert!(!TDim::Fixed(3).has_symbol(stream_symbol()));
}

#[test]
fn operations_know_their_kind() {
    assert!(Op::Source(fact()).is_source());
    assert!(!Op::Add.is_source());
    assert!(Op::Add.is_stateless());
    assert!(!Op::Delay(1).is_stateless());
    assert_eq!(Op::Dummy.name(), "Dummy");
}

#[test]
fn tensors_compare_by_contents() {
    let t1 = Tensor {
        dt: DatumType::I64,
        shape: vec![2],
        data: vec![1, 2],
    };
    let t2 = Tensor {
        dt: DatumType::I64,
        shape: vec![2],
        data: vec![1, 2],
    };
    let t3 = Tensor {
        dt: DatumType::I64,
        shape: vec![1, 2],
        data: vec![1, 2],
    };
    assert!(t1.same_value(&t2));
    assert!(!t1.same_value(&t3));
}

#[test]
fn freeze_accepts_only_fully_narrowed_facts() {
    let resolved = InferenceFact::from_tensor(Tensor {
        dt: DatumType::I64,
        shape: vec![2, 3],
        data: vec![0, 0, 0, 0, 0, 0],
    });
    assert_eq!(
        resolved.freeze(),
        Some(TypedFact::dt_shape(
            DatumType::I64,
            vec![TDim::Fixed(2), TDim::Fixed(3)],
        ))
    );

    let unresolved = InferenceFact::new_any();
    assert_eq!(unresolved.freeze(), None);

    let mut partially = InferenceFact::new_any();
    partially.datum_type = Factoid::Only(DatumType::I64);
    assert_eq!(partially.freeze(), None);
}
