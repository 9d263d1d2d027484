use streamgraph::dim::TDim;
use streamgraph::error::GraphError;
use streamgraph::fact::{DimFact, InferenceFact, ShapeFactoid};
use streamgraph::factoid::Factoid;
use streamgraph::infer::{
    infer_forward_basic, infer_forward_concrete, infer_shape_broadcasting, most_specific_shape,
};
use streamgraph::ops::{Const, Op};
use streamgraph::tensor::{DatumType, Tensor};

fn fixed(n: usize) -> DimFact {
    Factoid::Only(TDim::Fixed(n))
}

fn closed(dims: Vec<DimFact>) -> ShapeFactoid {
    ShapeFactoid::closed(dims)
}

#[test]
fn broadcast_infers_standard_shapes() {
    // [3,1] and [1,4] broadcast to [3,4].
    let shapes = vec![
        closed(vec![fixed(3), fixed(1)]),
        closed(vec![fixed(1), fixed(4)]),
    ];
    let r = infer_shape_broadcasting(&shapes).unwrap().unwrap();
    assert_eq!(r, closed(vec![fixed(3), fixed(4)]));
}

#[test]
fn broadcast_conflict_is_an_error() {
    // [2,5] and [3,5] disagree on a non-1 axis.
    let shapes = vec![
        closed(vec![fixed(2), fixed(5)]),
        closed(vec![fixed(3), fixed(5)]),
    ];
    assert_eq!(
        infer_shape_broadcasting(&shapes),
        Err(GraphError::BroadcastConflict)
    );
}

#[test]
fn broadcast_two_unknowns_yield_no_conclusion() {
    // [Any] and [Any] at the same position stay unknown, not a value.
    let shapes = vec![closed(vec![Factoid::Any]), closed(vec![Factoid::Any])];
    assert_eq!(infer_shape_broadcasting(&shapes), Ok(None));
}

#[test]
fn broadcast_unknown_against_known_yields_no_conclusion() {
    // One unknown next to a concrete non-1 value: the unknown might have to
    // broadcast against it, so no conclusion is drawn for the whole shape.
    let shapes = vec![
        closed(vec![Factoid::Any, fixed(5)]),
        closed(vec![fixed(2), fixed(5)]),
    ];
    assert_eq!(infer_shape_broadcasting(&shapes), Ok(None));
}

#[test]
fn broadcast_open_rank_yields_no_conclusion() {
    let shapes = vec![ShapeFactoid::fully_open(), closed(vec![fixed(2)])];
    assert_eq!(infer_shape_broadcasting(&shapes), Ok(None));
}

#[test]
fn broadcast_single_unknown_stays_unknown() {
    let shapes = vec![closed(vec![Factoid::Any, fixed(5)]), closed(vec![fixed(5)])];
    let r = infer_shape_broadcasting(&shapes).unwrap().unwrap();
    assert_eq!(r, closed(vec![Factoid::Any, fixed(5)]));
}

#[test]
fn most_specific_prefers_more_concrete_axes() {
    let shapes = vec![
        closed(vec![fixed(2), Factoid::Any]),
        closed(vec![fixed(2), fixed(3)]),
        ShapeFactoid::fully_open(),
    ];
    assert_eq!(most_specific_shape(&shapes), Ok(Some(1)));
}

#[test]
fn most_specific_first_wins_ties() {
    let shapes = vec![
        closed(vec![fixed(2), fixed(3)]),
        closed(vec![fixed(4), fixed(5)]),
    ];
    assert_eq!(most_specific_shape(&shapes), Ok(Some(0)));
}

#[test]
fn most_specific_rejects_rank_mismatch() {
    let shapes = vec![closed(vec![fixed(2)]), closed(vec![fixed(2), fixed(3)])];
    assert_eq!(most_specific_shape(&shapes), Err(GraphError::RankMismatch));
}

#[test]
fn most_specific_of_open_shapes_is_none() {
    let shapes = vec![ShapeFactoid::fully_open()];
    assert_eq!(most_specific_shape(&shapes), Ok(None));
}

fn tensor(shape: Vec<usize>, data: Vec<i64>) -> Tensor {
    Tensor {
        dt: DatumType::I64,
        shape,
        data,
    }
}

#[test]
fn forward_concrete_evaluates_constants() {
    let op = Op::Const(Const(tensor(vec![2], vec![5, 7])));
    let inputs: Vec<InferenceFact> = Vec::new();
    let facts = infer_forward_concrete(&op, &inputs).unwrap().unwrap();
    assert_eq!(facts.len(), 1);
    assert_eq!(facts[0].datum_type, Factoid::Only(DatumType::I64));
    assert_eq!(facts[0].shape, closed(vec![fixed(2)]));
    assert_eq!(facts[0].value, Factoid::Only(tensor(vec![2], vec![5, 7])));
}

#[test]
fn forward_concrete_adds_elementwise() {
    let a = InferenceFact::from_tensor(tensor(vec![2], vec![1, 2]));
    let b = InferenceFact::from_tensor(tensor(vec![2], vec![3, 4]));
    let facts = infer_forward_concrete(&Op::Add, &vec![a, b]).unwrap().unwrap();
    assert_eq!(facts[0].value, Factoid::Only(tensor(vec![2], vec![4, 6])));
}

#[test]
fn forward_concrete_is_deterministic() {
    let mk = || {
        vec![
            InferenceFact::from_tensor(tensor(vec![2], vec![1, 2])),
            InferenceFact::from_tensor(tensor(vec![2], vec![3, 4])),
        ]
    };
    let first = infer_forward_concrete(&Op::Add, &mk()).unwrap().unwrap();
    let second = infer_forward_concrete(&Op::Add, &mk()).unwrap().unwrap();
    assert_eq!(first, second);
}

#[test]
fn forward_concrete_reports_overflow() {
    let a = InferenceFact::from_tensor(tensor(vec![1], vec![i64::MAX]));
    let b = InferenceFact::from_tensor(tensor(vec![1], vec![1]));
    assert_eq!(
        infer_forward_concrete(&Op::Add, &vec![a, b]),
        Err(GraphError::Overflow)
    );
}

#[test]
fn forward_concrete_needs_all_values() {
    let a = InferenceFact::from_tensor(tensor(vec![1], vec![1]));
    let b = InferenceFact::new_any();
    assert_eq!(infer_forward_concrete(&Op::Add, &vec![a, b]), Ok(None));
}

#[test]
fn forward_concrete_skips_stateful_ops() {
    let inputs: Vec<InferenceFact> = Vec::new();
    assert_eq!(infer_forward_concrete(&Op::Dummy, &inputs), Ok(None));
}

#[test]
fn forward_concrete_rejects_wrong_arity() {
    let a = InferenceFact::from_tensor(tensor(vec![1], vec![1]));
    assert_eq!(
        infer_forward_concrete(&Op::Add, &vec![a]),
        Err(GraphError::Arity)
    );
}

#[test]
fn forward_concrete_rejects_mismatched_shapes() {
    let a = InferenceFact::from_tensor(tensor(vec![1], vec![1]));
    let b = InferenceFact::from_tensor(tensor(vec![2], vec![1, 2]));
    assert_eq!(
        infer_forward_concrete(&Op::Add, &vec![a, b]),
        Err(GraphError::ShapeMismatch)
    );
}

#[test]
fn forward_basic_deduces_type_and_shape() {
    let a = InferenceFact {
        datum_type: Factoid::Any,
        shape: closed(vec![fixed(3), fixed(1)]),
        value: Factoid::Any,
    };
    let b = InferenceFact {
        datum_type: Factoid::Only(DatumType::I64),
        shape: closed(vec![fixed(1), fixed(4)]),
        value: Factoid::Any,
    };
    let facts = infer_forward_basic(&Op::Add, &vec![a, b]).unwrap().unwrap();
    assert_eq!(facts.len(), 1);
    assert_eq!(facts[0].datum_type, Factoid::Only(DatumType::I64));
    assert_eq!(facts[0].shape, closed(vec![fixed(3), fixed(4)]));
    assert_eq!(facts[0].value, Factoid::Any);
}

#[test]
fn forward_basic_falls_back_to_open_shape() {
    let a = InferenceFact::new_any();
    let b = InferenceFact::new_any();
    let facts = infer_forward_basic(&Op::Add, &vec![a, b]).unwrap().unwrap();
    assert_eq!(facts[0].datum_type, Factoid::Any);
    assert_eq!(facts[0].shape, ShapeFactoid::fully_open());
}

#[test]
fn forward_basic_propagates_broadcast_conflict() {
    let a = InferenceFact {
        datum_type: Factoid::Any,
        shape: closed(vec![fixed(2)]),
        value: Factoid::Any,
    };
    let b = InferenceFact {
        datum_type: Factoid::Any,
        shape: closed(vec![fixed(3)]),
        value: Factoid::Any,
    };
    assert_eq!(
        infer_forward_basic(&Op::Add, &vec![a, b]),
        Err(GraphError::BroadcastConflict)
    );
}

#[test]
fn broadcast_of_scalars_is_scalar() {
    let shapes = vec![closed(vec![]), closed(vec![])];
    let r = infer_shape_broadcasting(&shapes).unwrap().unwrap();
    assert_eq!(r, closed(vec![]));
}

#[test]
fn broadcast_all_ones_gives_one() {
    let shapes = vec![closed(vec![fixed(1)]), closed(vec![fixed(1)])];
    let r = infer_shape_broadcasting(&shapes).unwrap().unwrap();
    assert_eq!(r, closed(vec![fixed(1)]));
}

#[test]
fn forward_basic_uses_concrete_evaluation_when_possible() {
    let a = InferenceFact::from_tensor(tensor(vec![2], vec![1, 2]));
    let b = InferenceFact::from_tensor(tensor(vec![2], vec![3, 4]));
    let facts = infer_forward_basic(&Op::Add, &vec![a, b]).unwrap().unwrap();
    assert_eq!(facts[0].value, Factoid::Only(tensor(vec![2], vec![4, 6])));
}
