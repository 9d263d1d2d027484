use streamgraph::dim::TDim;
use streamgraph::error::GraphError;
use streamgraph::fact::{InferenceFact, ShapeFactoid};
use streamgraph::factoid::Factoid;
use streamgraph::ops::{Const, Op};
use streamgraph::solver::{Rule, Solver};
use streamgraph::tensor::{DatumType, Tensor};

fn any_fact() -> InferenceFact {
    InferenceFact::new_any()
}

#[test]
fn solver_propagates_to_a_fixpoint() {
    let mut s = Solver::new();
    s.equals(Rule::TypeEq { a: 0, b: 1 });
    s.equals(Rule::RankEq { a: 0, b: 1 });
    s.equals(Rule::RankIs { a: 0, rank: 2 });
    s.equals(Rule::DimIs {
        a: 0,
        axis: 0,
        dim: TDim::Fixed(3),
    });

    let mut f0 = any_fact();
    f0.datum_type = Factoid::Only(DatumType::I64);
    let facts = vec![f0, any_fact()];
    let (out, converged) = s.solve(&facts).unwrap();
    assert!(converged);
    // The datum type flowed from slot 0 to slot 1.
    assert_eq!(out[1].datum_type, Factoid::Only(DatumType::I64));
    // The rank constant closed both shapes, and the dimension constant
    // landed in slot 0 while slot 1's axes stay unknown.
    assert_eq!(
        out[0].shape,
        ShapeFactoid::closed(vec![Factoid::Only(TDim::Fixed(3)), Factoid::Any])
    );
    assert_eq!(
        out[1].shape,
        ShapeFactoid::closed(vec![Factoid::Any, Factoid::Any])
    );
}

#[test]
fn solver_never_guesses_unforced_quantities() {
    let mut s = Solver::new();
    s.equals(Rule::TypeEq { a: 0, b: 1 });
    let facts = vec![any_fact(), any_fact()];
    let (out, converged) = s.solve(&facts).unwrap();
    assert!(converged);
    assert_eq!(out[0].datum_type, Factoid::Any);
    assert_eq!(out[1].datum_type, Factoid::Any);
    assert_eq!(out[0].shape, ShapeFactoid::fully_open());
}

#[test]
fn solver_rejects_conflicting_knowledge() {
    let mut s = Solver::new();
    s.equals(Rule::TypeIs {
        a: 0,
        dt: DatumType::I64,
    });
    let mut f0 = any_fact();
    f0.datum_type = Factoid::Only(DatumType::F32);
    assert_eq!(s.solve(&vec![f0]), Err(GraphError::Conflict));
}

#[test]
fn solver_rejects_rank_conflicts_and_bad_axes() {
    let mut s = Solver::new();
    s.equals(Rule::RankIs { a: 0, rank: 2 });
    let mut f0 = any_fact();
    f0.shape = ShapeFactoid::closed(vec![Factoid::Any]);
    assert_eq!(s.solve(&vec![f0]), Err(GraphError::Conflict));

    let mut s = Solver::new();
    s.equals(Rule::DimIs {
        a: 0,
        axis: 5,
        dim: TDim::Fixed(1),
    });
    let mut f1 = any_fact();
    f1.shape = ShapeFactoid::closed(vec![Factoid::Any]);
    assert_eq!(s.solve(&vec![f1]), Err(GraphError::RankMismatch));
}

#[test]
fn solver_rejects_unknown_slots() {
    let mut s = Solver::new();
    s.equals(Rule::TypeEq { a: 0, b: 9 });
    assert_eq!(
        s.solve(&vec![any_fact()]),
        Err(GraphError::UnknownQuantity)
    );
}

#[test]
fn solver_propagates_values() {
    let mut s = Solver::new();
    s.equals(Rule::ValueEq { a: 0, b: 1 });
    let t = Tensor {
        dt: DatumType::I64,
        shape: vec![2],
        data: vec![8, 9],
    };
    let mut f0 = any_fact();
    f0.value = Factoid::Only(t);
    let (out, converged) = s.solve(&vec![f0, any_fact()]).unwrap();
    assert!(converged);
    match &out[1].value {
        Factoid::Only(v) => assert_eq!(v.data, vec![8, 9]),
        Factoid::Any => panic!("the value should have flowed to slot 1"),
    }
}

#[test]
fn constant_rules_determine_its_output() {
    let c = Const(Tensor {
        dt: DatumType::I64,
        shape: vec![2, 3],
        data: vec![1, 2, 3, 4, 5, 6],
    });
    let op = Op::Const(c);
    let mut s = Solver::new();
    op.declare_rules(&mut s, 0);
    let (out, converged) = s.solve(&vec![any_fact()]).unwrap();
    assert!(converged);
    assert_eq!(out[0].datum_type, Factoid::Only(DatumType::I64));
    assert_eq!(
        out[0].shape,
        ShapeFactoid::closed(vec![
            Factoid::Only(TDim::Fixed(2)),
            Factoid::Only(TDim::Fixed(3)),
        ])
    );
}

#[test]
fn elementwise_rules_relate_the_types() {
    let mut s = Solver::new();
    Op::Add.declare_rules(&mut s, 2);
    let mut f1 = any_fact();
    f1.datum_type = Factoid::Only(DatumType::I64);
    let (out, converged) = s.solve(&vec![any_fact(), f1, any_fact()]).unwrap();
    assert!(converged);
    assert_eq!(out[0].datum_type, Factoid::Only(DatumType::I64));
    assert_eq!(out[2].datum_type, Factoid::Only(DatumType::I64));
}
