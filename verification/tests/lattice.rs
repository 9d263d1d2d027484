use streamgraph::dim::TDim;
use streamgraph::error::GraphError;
use streamgraph::factoid::Factoid;
use streamgraph::tensor::{DatumType, Tensor};

#[test]
fn meet_any_is_neutral() {
    let any: Factoid<TDim> = Factoid::Any;
    let five: Factoid<TDim> = Factoid::Only(TDim::Fixed(5));
    assert_eq!(any.meet(&five), Ok(five));
    assert_eq!(five.meet(&any), Ok(five));
    assert_eq!(any.meet(&any), Ok(any));
}

#[test]
fn meet_is_idempotent_and_commutative_on_values() {
    let five: Factoid<TDim> = Factoid::Only(TDim::Fixed(5));
    let six: Factoid<TDim> = Factoid::Only(TDim::Fixed(6));
    assert_eq!(five.meet(&five), Ok(five));
    assert_eq!(five.meet(&six), six.meet(&five));
}

#[test]
fn meet_fails_exactly_on_differing_concretes() {
    let five: Factoid<TDim> = Factoid::Only(TDim::Fixed(5));
    let six: Factoid<TDim> = Factoid::Only(TDim::Fixed(6));
    assert_eq!(five.meet(&six), Err(GraphError::Conflict));

    let r2: Factoid<usize> = Factoid::Only(2);
    let r3: Factoid<usize> = Factoid::Only(3);
    assert_eq!(r2.meet(&r3), Err(GraphError::Conflict));
    assert_eq!(r2.meet(&r2), Ok(r2));

    let i64t: Factoid<DatumType> = Factoid::Only(DatumType::I64);
    let f32t: Factoid<DatumType> = Factoid::Only(DatumType::F32);
    assert_eq!(i64t.meet(&f32t), Err(GraphError::Conflict));
}

#[test]
fn meet_on_tensor_values_compares_contents() {
    let t1 = Tensor {
        dt: DatumType::I64,
        shape: vec![2],
        data: vec![4, 7],
    };
    let t1_again = Tensor {
        dt: DatumType::I64,
        shape: vec![2],
        data: vec![4, 7],
    };
    let t2 = Tensor {
        dt: DatumType::I64,
        shape: vec![2],
        data: vec![4, 8],
    };
    let a: Factoid<Tensor> = Factoid::Only(t1);
    let b: Factoid<Tensor> = Factoid::Only(t1_again);
    let c: Factoid<Tensor> = Factoid::Only(t2);
    assert!(matches!(a.meet(&b), Ok(Factoid::Only(_))));
    assert_eq!(a.meet(&c), Err(GraphError::Conflict));
    let any: Factoid<Tensor> = Factoid::Any;
    assert!(matches!(any.meet(&a), Ok(Factoid::Only(_))));
}
