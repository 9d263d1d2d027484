//! Forward inference helpers: evaluate an operation outright when every
//! input value is known, infer an output shape by broadcasting partially
//! known input shapes, and pick the most specific of several shapes. Missing
//! information is reported as `None`, never guessed; conflicting concrete
//! knowledge is a hard failure.

use vstd::prelude::*;

use crate::dim::TDim;
use crate::error::GraphError;
use crate::fact::{DimFact, IFactView, InferenceFact, ShapeFactoid, ShapeView, spec_fact_of_tensor};
use crate::factoid::Factoid;
use crate::ops::{spec_eval, tensor_views, eval_op, Op};
use crate::tensor::{DatumType, TView, Tensor};

verus! {

/// The mathematical values of a sequence of shape factoids.
pub open spec fn shape_views(shapes: Seq<ShapeFactoid>) -> Seq<ShapeView> {
    shapes.map_values(|s: ShapeFactoid| s@)
}

/// Whether every shape has a known rank.
pub open spec fn all_closed_prefix(shapes: Seq<ShapeView>, j: int) -> bool
    decreases j,
{
    j <= 0 || (all_closed_prefix(shapes, j - 1) && shapes[j - 1] is Closed)
}

pub open spec fn all_closed(shapes: Seq<ShapeView>) -> bool {
    all_closed_prefix(shapes, shapes.len() as int)
}

pub proof fn lemma_all_closed_at(shapes: Seq<ShapeView>, j: int, k: int)
    requires
        all_closed_prefix(shapes, j),
        0 <= k < j,
    ensures
        shapes[k] is Closed,
    decreases j,
{
    if k < j - 1 {
        lemma_all_closed_at(shapes, j - 1, k);
    }
}

/// The factoid a shape carries at position `i` counted from its last axis.
pub open spec fn rdim(s: ShapeView, i: int) -> Option<DimFact> {
    match s {
        ShapeView::Open => None,
        ShapeView::Closed(dims) => if 0 <= i < dims.len() {
            Some(dims[dims.len() - 1 - i])
        } else {
            None
        },
    }
}

/// How many of the first `j` shapes are unknown at right-position `i`.
pub open spec fn unknowns_prefix(shapes: Seq<ShapeView>, i: int, j: int) -> nat
    decreases j,
{
    if j <= 0 {
        0nat
    } else {
        unknowns_prefix(shapes, i, j - 1) + (if rdim(shapes[j - 1], i) == Some(
            Factoid::<TDim>::Any,
        ) {
            1nat
        } else {
            0nat
        })
    }
}

/// The concrete non-1 dimension a shape carries at right-position `i`, if
/// any; literal 1 is neutral for broadcasting and is ignored.
pub open spec fn known_at(s: ShapeView, i: int) -> Option<TDim> {
    match rdim(s, i) {
        Some(Factoid::Only(d)) => if d.spec_is_one() {
            None
        } else {
            Some(d)
        },
        _ => None,
    }
}

/// The first concrete non-1 dimension among the first `j` shapes at
/// right-position `i`.
pub open spec fn known_prefix(shapes: Seq<ShapeView>, i: int, j: int) -> Option<TDim>
    decreases j,
{
    if j <= 0 {
        None
    } else {
        match known_prefix(shapes, i, j - 1) {
            Some(d) => Some(d),
            None => known_at(shapes[j - 1], i),
        }
    }
}

/// Whether the first `j` shapes carry two disagreeing concrete non-1
/// dimensions at right-position `i`.
pub open spec fn conflict_prefix(shapes: Seq<ShapeView>, i: int, j: int) -> bool
    decreases j,
{
    if j <= 0 {
        false
    } else {
        conflict_prefix(shapes, i, j - 1) || (match (
            known_prefix(shapes, i, j - 1),
            known_at(shapes[j - 1], i),
        ) {
            (Some(p), Some(d)) => d != p,
            _ => false,
        })
    }
}

/// A concrete non-1 dimension among the first `j` shapes makes the first
/// known one defined.
proof fn lemma_known_prefix_covers(shapes: Seq<ShapeView>, i: int, j: int, t: int)
    requires
        0 <= t < j,
        known_at(shapes[t], i) is Some,
    ensures
        known_prefix(shapes, i, j) is Some,
    decreases j,
{
    if t < j - 1 {
        lemma_known_prefix_covers(shapes, i, j - 1, t);
    }
}

/// Without a conflict, every concrete non-1 dimension among the first `j`
/// shapes equals the first known one.
proof fn lemma_no_conflict_agree(shapes: Seq<ShapeView>, i: int, j: int, t: int, d: TDim)
    requires
        !conflict_prefix(shapes, i, j),
        0 <= t < j,
        known_at(shapes[t], i) == Some(d),
    ensures
        known_prefix(shapes, i, j) == Some(d),
    decreases j,
{
    if t < j - 1 {
        lemma_no_conflict_agree(shapes, i, j - 1, t, d);
    } else {
        if known_prefix(shapes, i, j - 1) is Some {
        }
    }
}

/// The first known dimension is witnessed by some shape.
proof fn lemma_known_prefix_some(shapes: Seq<ShapeView>, i: int, j: int)
    requires
        known_prefix(shapes, i, j) is Some,
    ensures
        exists|t: int|
            0 <= t < j && known_at(shapes[t], i) == Some(
                known_prefix(shapes, i, j)->Some_0,
            ),
    decreases j,
{
    if known_prefix(shapes, i, j - 1) is Some {
        lemma_known_prefix_some(shapes, i, j - 1);
        let t = choose|t: int|
            0 <= t < j - 1 && known_at(shapes[t], i) == Some(
                known_prefix(shapes, i, j - 1)->Some_0,
            );
        assert(known_at(shapes[t], i) == Some(known_prefix(shapes, i, j)->Some_0));
    } else {
        assert(known_at(shapes[j - 1], i) == Some(known_prefix(shapes, i, j)->Some_0));
    }
}

/// A position conflicts exactly when two inputs carry differing concrete
/// non-1 dimensions there: all concrete non-1 values present must be
/// pairwise equal.
pub proof fn lemma_conflict_characterisation(shapes: Seq<ShapeView>, i: int)
    ensures
        axis_conflict(shapes, i) <==> exists|j1: int, j2: int|
            0 <= j1 < shapes.len() && 0 <= j2 < shapes.len() && known_at(shapes[j1], i) is Some
                && known_at(shapes[j2], i) is Some && #[trigger] known_at(shapes[j1], i)
                != #[trigger] known_at(shapes[j2], i),
{
    let m = shapes.len() as int;
    if axis_conflict(shapes, i) {
        lemma_conflict_witness(shapes, i, m);
    }
    if exists|j1: int, j2: int|
        0 <= j1 < m && 0 <= j2 < m && known_at(shapes[j1], i) is Some && known_at(
            shapes[j2],
            i,
        ) is Some && #[trigger] known_at(shapes[j1], i) != #[trigger] known_at(shapes[j2], i) {
        let (j1, j2) = choose|j1: int, j2: int|
            0 <= j1 < m && 0 <= j2 < m && known_at(shapes[j1], i) is Some && known_at(
                shapes[j2],
                i,
            ) is Some && #[trigger] known_at(shapes[j1], i) != #[trigger] known_at(
                shapes[j2],
                i,
            );
        if !axis_conflict(shapes, i) {
            let d1 = known_at(shapes[j1], i)->Some_0;
            let d2 = known_at(shapes[j2], i)->Some_0;
            lemma_no_conflict_agree(shapes, i, m, j1, d1);
            lemma_no_conflict_agree(shapes, i, m, j2, d2);
        }
    }
}

/// A conflicting prefix holds two differing concrete non-1 dimensions.
proof fn lemma_conflict_witness(shapes: Seq<ShapeView>, i: int, j: int)
    requires
        conflict_prefix(shapes, i, j),
        j <= shapes.len(),
    ensures
        exists|j1: int, j2: int|
            0 <= j1 < shapes.len() && 0 <= j2 < shapes.len() && known_at(shapes[j1], i) is Some
                && known_at(shapes[j2], i) is Some && #[trigger] known_at(shapes[j1], i)
                != #[trigger] known_at(shapes[j2], i),
    decreases j,
{
    if conflict_prefix(shapes, i, j - 1) {
        lemma_conflict_witness(shapes, i, j - 1);
    } else {
        let p = known_prefix(shapes, i, j - 1)->Some_0;
        lemma_known_prefix_some(shapes, i, j - 1);
        let t = choose|t: int| 0 <= t < j - 1 && known_at(shapes[t], i) == Some(p);
        assert(known_at(shapes[t], i) is Some && known_at(shapes[j - 1], i) is Some
            && known_at(shapes[t], i) != known_at(shapes[j - 1], i));
    }
}

pub open spec fn axis_conflict(shapes: Seq<ShapeView>, i: int) -> bool {
    conflict_prefix(shapes, i, shapes.len() as int)
}

pub open spec fn axis_unknowns(shapes: Seq<ShapeView>, i: int) -> nat {
    unknowns_prefix(shapes, i, shapes.len() as int)
}

pub open spec fn axis_known(shapes: Seq<ShapeView>, i: int) -> Option<TDim> {
    known_prefix(shapes, i, shapes.len() as int)
}

/// A position is ambiguous when several inputs are unknown there, or one is
/// unknown while another is concretely non-1: the unknown might have to
/// broadcast against the known value, which is unsafe to assume.
pub open spec fn axis_ambiguous(shapes: Seq<ShapeView>, i: int) -> bool {
    !axis_conflict(shapes, i) && (axis_unknowns(shapes, i) > 1 || (axis_unknowns(shapes, i) == 1
        && axis_known(shapes, i) is Some))
}

/// The inferred dimension at an unconflicted, unambiguous position: the one
/// agreed concrete value, unknown if the single unknown decides it, and 1
/// when every input is 1 there.
pub open spec fn axis_value(shapes: Seq<ShapeView>, i: int) -> DimFact {
    if axis_unknowns(shapes, i) == 1 {
        Factoid::Any
    } else {
        match axis_known(shapes, i) {
            Some(d) => Factoid::Only(d),
            None => Factoid::Only(TDim::Fixed(1usize)),
        }
    }
}

/// The greatest known rank among the first `j` shapes.
pub open spec fn max_rank_prefix(shapes: Seq<ShapeView>, j: int) -> nat
    decreases j,
{
    if j <= 0 {
        0nat
    } else {
        let m = max_rank_prefix(shapes, j - 1);
        let l = shapes[j - 1]->Closed_0.len();
        if l > m {
            l
        } else {
            m
        }
    }
}

pub open spec fn spec_max_rank(shapes: Seq<ShapeView>) -> nat {
    max_rank_prefix(shapes, shapes.len() as int)
}

/// The first position, scanning from the last axis, that conflicts or is
/// ambiguous.
pub open spec fn first_bad_from(shapes: Seq<ShapeView>, n: int, i: int) -> Option<int>
    decreases n - i,
{
    if i >= n {
        None
    } else if axis_conflict(shapes, i) || axis_ambiguous(shapes, i) {
        Some(i)
    } else {
        first_bad_from(shapes, n, i + 1)
    }
}

pub proof fn lemma_first_bad_at(shapes: Seq<ShapeView>, n: int, t: int, i: int)
    requires
        0 <= t <= i < n,
        forall|j: int| t <= j < i ==> !axis_conflict(shapes, j) && !axis_ambiguous(shapes, j),
        axis_conflict(shapes, i) || axis_ambiguous(shapes, i),
    ensures
        first_bad_from(shapes, n, t) == Some(i),
    decreases i - t,
{
    if t < i {
        lemma_first_bad_at(shapes, n, t + 1, i);
    }
}

pub proof fn lemma_first_bad_none(shapes: Seq<ShapeView>, n: int, t: int)
    requires
        t <= n,
        forall|j: int| t <= j < n ==> !axis_conflict(shapes, j) && !axis_ambiguous(shapes, j),
    ensures
        first_bad_from(shapes, n, t) is None,
    decreases n - t,
{
    if t < n {
        lemma_first_bad_none(shapes, n, t + 1);
    }
}

/// A conflict among a prefix is a conflict of the whole.
pub proof fn lemma_conflict_mono(shapes: Seq<ShapeView>, i: int, j: int)
    requires
        conflict_prefix(shapes, i, j),
        j <= shapes.len(),
    ensures
        axis_conflict(shapes, i),
    decreases shapes.len() - j,
{
    if j < shapes.len() {
        lemma_conflict_mono(shapes, i, j + 1);
    }
}

/// What broadcasting a set of input shapes yields: no conclusion when some
/// input's rank is unknown or some position is ambiguous, a conflict error
/// when two concrete non-1 dimensions disagree at one position, and
/// otherwise the closed shape whose axes are read off right-aligned.
pub open spec fn spec_broadcast(shapes: Seq<ShapeView>) -> Result<
    Option<Seq<DimFact>>,
    GraphError,
> {
    if !all_closed(shapes) {
        Ok(None)
    } else {
        let n = spec_max_rank(shapes) as int;
        match first_bad_from(shapes, n, 0) {
            Some(i) => if axis_conflict(shapes, i) {
                Err(GraphError::BroadcastConflict)
            } else {
                Ok(None)
            },
            None => Ok(Some(Seq::new(n as nat, |k: int| axis_value(shapes, n - 1 - k)))),
        }
    }
}

/// Infer the output shape of a broadcasting operator from its input shapes.
/// Yields no conclusion rather than guessing wherever the inputs leave the
/// outcome open; two disagreeing concrete non-1 dimensions at one position
/// are a broadcasting conflict.
pub fn infer_shape_broadcasting(shapes: &Vec<ShapeFactoid>) -> (r: Result<
    Option<ShapeFactoid>,
    GraphError,
>)
    requires
        shapes@.len() >= 1,
    ensures
        (match spec_broadcast(shape_views(shapes@)) {
            Err(e) => r == Err::<Option<ShapeFactoid>, GraphError>(e),
            Ok(None) => r is Ok && r->Ok_0 is None,
            Ok(Some(dims)) => r is Ok && r->Ok_0 is Some && r->Ok_0->Some_0@ == ShapeView::Closed(
                dims,
            ),
        }),
{
    let ghost views = shape_views(shapes@);
    let m = shapes.len();

    let mut all_closed_so_far = true;
    let mut i: usize = 0;
    while i < m
        invariant
            i <= m,
            m == shapes@.len(),
            views == shape_views(shapes@),
            all_closed_so_far == all_closed_prefix(views, i as int),
        decreases m - i,
    {
        if shapes[i].is_open() {
            all_closed_so_far = false;
        }
        i = i + 1;
    }
    if !all_closed_so_far {
        return Ok(None);
    }

    let mut bound: usize = 0;
    let mut i: usize = 0;
    while i < m
        invariant
            i <= m,
            m == shapes@.len(),
            views == shape_views(shapes@),
            all_closed(views),
            bound == max_rank_prefix(views, i as int),
        decreases m - i,
    {
        proof {
            lemma_all_closed_at(views, m as int, i as int);
        }
        let rank = match &shapes[i] {
            ShapeFactoid::Open => vstd::pervasive::unreached(),
            ShapeFactoid::Closed(dims) => dims.len(),
        };
        if rank > bound {
            bound = rank;
        }
        i = i + 1;
    }

    let ghost n = spec_max_rank(views) as int;
    let mut output: Vec<DimFact> = Vec::new();
    let mut i: usize = 0;
    while i < bound
        invariant
            i <= bound,
            m == shapes@.len(),
            m >= 1,
            views == shape_views(shapes@),
            all_closed(views),
            bound == n,
            n == spec_max_rank(views),
            output@.len() == i,
            forall|j: int| 0 <= j < i ==> !axis_conflict(views, j) && !axis_ambiguous(views, j),
            forall|j: int| 0 <= j < i ==> output@[j] == axis_value(views, j),
        decreases bound - i,
    {
        let mut previous: Option<TDim> = None;
        let mut unknown: usize = 0;
        let mut s: usize = 0;
        while s < m
            invariant
                s <= m,
                m == shapes@.len(),
                views == shape_views(shapes@),
                all_closed(views),
                i < bound,
                bound == n,
                n == spec_max_rank(views),
                forall|j: int| 0 <= j < i ==> !axis_conflict(views, j) && !axis_ambiguous(views, j),
                unknown == unknowns_prefix(views, i as int, s as int),
                unknown <= s,
                previous == known_prefix(views, i as int, s as int),
                !conflict_prefix(views, i as int, s as int),
            decreases m - s,
        {
            proof {
                lemma_all_closed_at(views, m as int, s as int);
            }
            let dims = match &shapes[s] {
                ShapeFactoid::Open => vstd::pervasive::unreached(),
                ShapeFactoid::Closed(dims) => dims,
            };
            let rank = dims.len();
            if i < rank {
                match &dims[rank - 1 - i] {
                    Factoid::Any => {
                        unknown = unknown + 1;
                    },
                    Factoid::Only(d) => {
                        if !d.is_one() {
                            match &previous {
                                Some(p) => {
                                    if *p != *d {
                                        proof {
                                            lemma_conflict_mono(views, i as int, s + 1);
                                            lemma_first_bad_at(views, n, 0, i as int);
                                        }
                                        return Err(GraphError::BroadcastConflict);
                                    }
                                },
                                None => {
                                    previous = Some(*d);
                                },
                            }
                        }
                    },
                }
            }
            s = s + 1;
        }
        if unknown > 1 {
            proof {
                lemma_first_bad_at(views, n, 0, i as int);
            }
            return Ok(None);
        }
        if unknown == 1 {
            match &previous {
                Some(_) => {
                    proof {
                        lemma_first_bad_at(views, n, 0, i as int);
                    }
                    return Ok(None);
                },
                None => {
                    output.push(Factoid::Any);
                },
            }
        } else {
            match &previous {
                Some(p) => {
                    output.push(Factoid::Only(*p));
                },
                None => {
                    output.push(Factoid::Only(TDim::Fixed(1)));
                },
            }
        }
        i = i + 1;
    }

    proof {
        lemma_first_bad_none(views, n, 0);
    }
    let mut result: Vec<DimFact> = Vec::new();
    let mut k: usize = bound;
    while k > 0
        invariant
            k <= bound,
            bound == output@.len(),
            result@.len() == bound - k,
            forall|t: int| 0 <= t < bound - k ==> result@[t] == output@[bound - 1 - t],
        decreases k,
    {
        k = k - 1;
        result.push(output[k]);
    }
    proof {
        let dims = spec_broadcast(views)->Ok_0->Some_0;
        assert forall|t: int| 0 <= t < n implies result@[t] == dims[t] by {
            assert(result@[t] == output@[n - 1 - t]);
        }
        assert(result@ =~= dims);
    }
    Ok(Some(ShapeFactoid::Closed(result)))
}

/// What is known of every input's value, when all are known.
pub open spec fn values_concrete(inputs: Seq<InferenceFact>) -> bool {
    forall|i: int| 0 <= i < inputs.len() ==> (#[trigger] inputs[i]).value is Only
}

/// The concrete input values, once all are known.
pub open spec fn input_tensors(inputs: Seq<InferenceFact>) -> Seq<TView> {
    Seq::new(inputs.len(), |i: int| inputs[i].value->Only_0@)
}

/// What evaluating an operation on fully known inputs concludes: nothing
/// when some value is still unknown or the operation is not stateless, and
/// otherwise the one fact its output value determines completely.
pub open spec fn spec_forward_concrete(op: Op, inputs: Seq<InferenceFact>) -> Result<
    Option<Seq<IFactView>>,
    GraphError,
> {
    if !values_concrete(inputs) {
        Ok(None)
    } else if !op.spec_is_stateless() {
        Ok(None)
    } else {
        match spec_eval(op, input_tensors(inputs)) {
            Err(e) => Err(e),
            Ok(outs) => Ok(Some(seq![spec_fact_of_tensor(outs.last())])),
        }
    }
}

/// Infer every possible fact at once when all the input values are concrete:
/// evaluate the stateless operation on them and report its output as a fully
/// resolved fact. Unknown inputs or a stateful operation yield no
/// conclusion.
pub fn infer_forward_concrete(op: &Op, inputs: &Vec<InferenceFact>) -> (r: Result<
    Option<Vec<InferenceFact>>,
    GraphError,
>)
    ensures
        (match spec_forward_concrete(*op, inputs@) {
            Err(e) => r == Err::<Option<Vec<InferenceFact>>, GraphError>(e),
            Ok(None) => r is Ok && r->Ok_0 is None,
            Ok(Some(facts)) => r is Ok && r->Ok_0 is Some && r->Ok_0->Some_0@.map_values(
                |f: InferenceFact| f@,
            ) == facts,
        }),
{
    let mut tensors: Vec<Tensor> = Vec::new();
    let mut i: usize = 0;
    while i < inputs.len()
        invariant
            i <= inputs@.len(),
            tensors@.len() == i,
            forall|k: int| 0 <= k < i ==> (#[trigger] inputs@[k]).value is Only,
            forall|k: int| 0 <= k < i ==> tensors@[k]@ == inputs@[k].value->Only_0@,
        decreases inputs@.len() - i,
    {
        match &inputs[i].value {
            Factoid::Only(t) => {
                tensors.push(t.duplicate());
            },
            Factoid::Any => {
                return Ok(None);
            },
        }
        i = i + 1;
    }
    if !op.is_stateless() {
        return Ok(None);
    }
    proof {
        assert(tensor_views(tensors@) =~= input_tensors(inputs@));
    }
    match eval_op(op, &tensors) {
        Err(e) => Err(e),
        Ok(mut outs) => {
            proof {
                assert(spec_eval(*op, input_tensors(inputs@))->Ok_0.len() == 1);
            }
            match outs.pop() {
                None => vstd::pervasive::unreached(),
                Some(t) => {
                    let fact = InferenceFact::from_tensor(t);
                    let mut facts: Vec<InferenceFact> = Vec::new();
                    facts.push(fact);
                    proof {
                        let spec_facts = spec_forward_concrete(*op, inputs@)->Ok_0->Some_0;
                        assert(facts@.map_values(|f: InferenceFact| f@) =~= spec_facts);
                    }
                    Ok(Some(facts))
                },
            }
        },
    }
}

/// Forward-concrete inference is deterministic: a stateless operation
/// evaluated twice on inputs carrying the same concrete values concludes the
/// same facts, and fails the same way.
pub proof fn lemma_forward_concrete_deterministic(
    op: Op,
    a: Seq<InferenceFact>,
    b: Seq<InferenceFact>,
)
    requires
        a.map_values(|f: InferenceFact| f@) == b.map_values(|f: InferenceFact| f@),
    ensures
        spec_forward_concrete(op, a) == spec_forward_concrete(op, b),
{
    let av = a.map_values(|f: InferenceFact| f@);
    let bv = b.map_values(|f: InferenceFact| f@);
    assert(a.len() == b.len()) by {
        assert(av.len() == a.len() && bv.len() == b.len());
    }
    assert forall|i: int| 0 <= i < a.len() implies ((#[trigger] a[i]).value is Only <==> b[i].value
        is Only) by {
        assert(av[i] == a[i]@ && bv[i] == b[i]@);
    }
    if values_concrete(a) {
        assert forall|i: int| 0 <= i < b.len() implies (#[trigger] b[i]).value is Only by {
            assert(a[i].value is Only);
        }
        assert(values_concrete(b));
    }
    if values_concrete(b) {
        assert forall|i: int| 0 <= i < a.len() implies (#[trigger] a[i]).value is Only by {
            assert(b[i].value is Only);
        }
        assert(values_concrete(a));
    }
    if values_concrete(a) {
        assert forall|i: int| 0 <= i < a.len() implies (#[trigger] a[i]).value->Only_0@
            == b[i].value->Only_0@ by {
            assert(av[i] == a[i]@ && bv[i] == b[i]@);
            assert(a[i]@.value == b[i]@.value);
        }
        assert(input_tensors(a) =~= input_tensors(b));
    }
}

/// The first concretely known datum type among the inputs.
pub open spec fn first_dt_prefix(inputs: Seq<InferenceFact>, j: int) -> Factoid<DatumType>
    decreases j,
{
    if j <= 0 {
        Factoid::Any
    } else {
        match first_dt_prefix(inputs, j - 1) {
            Factoid::Only(d) => Factoid::Only(d),
            Factoid::Any => inputs[j - 1].datum_type,
        }
    }
}

pub open spec fn spec_first_dt(inputs: Seq<InferenceFact>) -> Factoid<DatumType> {
    first_dt_prefix(inputs, inputs.len() as int)
}

/// What the basic unary/binary fallback concludes: the concrete conclusion
/// when evaluation is possible, and otherwise the first known input datum
/// type with the broadcast of the input shapes, the value left unknown.
pub open spec fn spec_forward_basic(op: Op, inputs: Seq<InferenceFact>) -> Result<
    Option<Seq<IFactView>>,
    GraphError,
> {
    match spec_forward_concrete(op, inputs) {
        Err(e) => Err(e),
        Ok(Some(facts)) => Ok(Some(facts)),
        Ok(None) => {
            let shapes = Seq::new(inputs.len(), |i: int| inputs[i].shape@);
            match spec_broadcast(shapes) {
                Err(e) => Err(e),
                Ok(sh) => Ok(
                    Some(
                        seq![
                            IFactView {
                                datum_type: spec_first_dt(inputs),
                                shape: match sh {
                                    Some(dims) => ShapeView::Closed(dims),
                                    None => ShapeView::Open,
                                },
                                value: Factoid::Any,
                            },
                        ],
                    ),
                ),
            }
        },
    }
}

/// Infer basic facts for a unary or binary broadcasting operator: everything
/// at once when the input values are concrete, and otherwise the output
/// datum type and broadcast shape alone.
pub fn infer_forward_basic(op: &Op, inputs: &Vec<InferenceFact>) -> (r: Result<
    Option<Vec<InferenceFact>>,
    GraphError,
>)
    requires
        inputs@.len() >= 1,
    ensures
        (match spec_forward_basic(*op, inputs@) {
            Err(e) => r == Err::<Option<Vec<InferenceFact>>, GraphError>(e),
            Ok(None) => r is Ok && r->Ok_0 is None,
            Ok(Some(facts)) => r is Ok && r->Ok_0 is Some && r->Ok_0->Some_0@.map_values(
                |f: InferenceFact| f@,
            ) == facts,
        }),
{
    match infer_forward_concrete(op, inputs) {
        Err(e) => {
            return Err(e);
        },
        Ok(Some(facts)) => {
            return Ok(Some(facts));
        },
        Ok(None) => {},
    }

    let mut datum_type: Factoid<DatumType> = Factoid::Any;
    let mut i: usize = 0;
    while i < inputs.len()
        invariant
            i <= inputs@.len(),
            datum_type == first_dt_prefix(inputs@, i as int),
        decreases inputs@.len() - i,
    {
        match &datum_type {
            Factoid::Only(_) => {},
            Factoid::Any => {
                datum_type = inputs[i].datum_type;
            },
        }
        i = i + 1;
    }

    let mut input_shapes: Vec<ShapeFactoid> = Vec::new();
    let mut i: usize = 0;
    while i < inputs.len()
        invariant
            i <= inputs@.len(),
            input_shapes@.len() == i,
            forall|k: int| 0 <= k < i ==> input_shapes@[k]@ == (#[trigger] inputs@[k]).shape@,
        decreases inputs@.len() - i,
    {
        input_shapes.push(inputs[i].shape.duplicate());
        i = i + 1;
    }
    proof {
        assert(shape_views(input_shapes@) =~= Seq::new(
            inputs@.len(),
            |k: int| inputs@[k].shape@,
        ));
    }

    let shape = match infer_shape_broadcasting(&input_shapes) {
        Err(e) => {
            return Err(e);
        },
        Ok(Some(s)) => s,
        Ok(None) => ShapeFactoid::Open,
    };

    let fact = InferenceFact { datum_type, shape, value: Factoid::Any };
    let mut facts: Vec<InferenceFact> = Vec::new();
    facts.push(fact);
    proof {
        let spec_facts = spec_forward_basic(*op, inputs@)->Ok_0->Some_0;
        assert(facts@.map_values(|f: InferenceFact| f@) =~= spec_facts);
    }
    Ok(Some(facts))
}

/// How many axes of a closed shape are concretely known.
pub open spec fn num_concrete_prefix(dims: Seq<DimFact>, j: int) -> nat
    decreases j,
{
    if j <= 0 {
        0nat
    } else {
        num_concrete_prefix(dims, j - 1) + (if dims[j - 1] is Only {
            1nat
        } else {
            0nat
        })
    }
}

pub open spec fn num_concrete(dims: Seq<DimFact>) -> nat {
    num_concrete_prefix(dims, dims.len() as int)
}

/// The rank of the first closed shape among the first `j`.
pub open spec fn first_closed_rank_prefix(shapes: Seq<ShapeView>, j: int) -> Option<nat>
    decreases j,
{
    if j <= 0 {
        None
    } else {
        match first_closed_rank_prefix(shapes, j - 1) {
            Some(r) => Some(r),
            None => match shapes[j - 1] {
                ShapeView::Closed(dims) => Some(dims.len()),
                ShapeView::Open => None,
            },
        }
    }
}

/// Whether every closed shape among the first `j` has the same rank.
pub open spec fn ranks_ok_prefix(shapes: Seq<ShapeView>, j: int) -> bool
    decreases j,
{
    if j <= 0 {
        true
    } else {
        ranks_ok_prefix(shapes, j - 1) && (shapes[j - 1] is Closed
            ==> match first_closed_rank_prefix(shapes, j - 1) {
            Some(r) => shapes[j - 1]->Closed_0.len() == r,
            None => true,
        })
    }
}

/// The first closed rank is witnessed by some closed shape.
proof fn lemma_first_closed_witness(shapes: Seq<ShapeView>, j: int)
    requires
        first_closed_rank_prefix(shapes, j) is Some,
    ensures
        exists|t: int|
            0 <= t < j && (#[trigger] shapes[t]) is Closed && shapes[t]->Closed_0.len()
                == first_closed_rank_prefix(shapes, j)->Some_0,
    decreases j,
{
    if first_closed_rank_prefix(shapes, j - 1) is Some {
        lemma_first_closed_witness(shapes, j - 1);
    } else {
        assert(shapes[j - 1] is Closed && shapes[j - 1]->Closed_0.len()
            == first_closed_rank_prefix(shapes, j)->Some_0);
    }
}

/// While the ranks agree, every closed shape's rank is the first one.
proof fn lemma_ranks_ok_agree(shapes: Seq<ShapeView>, j: int, t: int)
    requires
        ranks_ok_prefix(shapes, j),
        0 <= t < j,
        shapes[t] is Closed,
    ensures
        first_closed_rank_prefix(shapes, j) == Some(shapes[t]->Closed_0.len()),
    decreases j,
{
    if t < j - 1 {
        lemma_ranks_ok_agree(shapes, j - 1, t);
    } else {
        if first_closed_rank_prefix(shapes, j - 1) is Some {
        }
    }
}

/// A prefix with a rank disagreement holds two closed shapes of different
/// rank.
proof fn lemma_ranks_bad_witness(shapes: Seq<ShapeView>, j: int)
    requires
        !ranks_ok_prefix(shapes, j),
        j <= shapes.len(),
    ensures
        exists|t1: int, t2: int|
            0 <= t1 < shapes.len() && 0 <= t2 < shapes.len() && (#[trigger] shapes[t1]) is Closed
                && (#[trigger] shapes[t2]) is Closed && shapes[t1]->Closed_0.len()
                != shapes[t2]->Closed_0.len(),
    decreases j,
{
    if !ranks_ok_prefix(shapes, j - 1) {
        lemma_ranks_bad_witness(shapes, j - 1);
    } else {
        let r = first_closed_rank_prefix(shapes, j - 1)->Some_0;
        lemma_first_closed_witness(shapes, j - 1);
        let t = choose|t: int|
            0 <= t < j - 1 && (#[trigger] shapes[t]) is Closed && shapes[t]->Closed_0.len() == r;
        assert(shapes[t] is Closed && shapes[j - 1] is Closed && shapes[t]->Closed_0.len()
            != shapes[j - 1]->Closed_0.len());
    }
}

/// The ranks are consistent exactly when every two closed shapes have one
/// rank.
pub proof fn lemma_ranks_characterisation(shapes: Seq<ShapeView>)
    ensures
        ranks_ok_prefix(shapes, shapes.len() as int) <==> forall|t1: int, t2: int|
            0 <= t1 < shapes.len() && 0 <= t2 < shapes.len() && (#[trigger] shapes[t1]) is Closed
                && (#[trigger] shapes[t2]) is Closed ==> shapes[t1]->Closed_0.len()
                == shapes[t2]->Closed_0.len(),
{
    let m = shapes.len() as int;
    if ranks_ok_prefix(shapes, m) {
        assert forall|t1: int, t2: int|
            0 <= t1 < m && 0 <= t2 < m && (#[trigger] shapes[t1]) is Closed && (
            #[trigger] shapes[t2]) is Closed implies shapes[t1]->Closed_0.len()
            == shapes[t2]->Closed_0.len() by {
            lemma_ranks_ok_agree(shapes, m, t1);
            lemma_ranks_ok_agree(shapes, m, t2);
        }
    } else {
        lemma_ranks_bad_witness(shapes, m);
    }
}

pub proof fn lemma_ranks_bad_mono(shapes: Seq<ShapeView>, j: int)
    requires
        !ranks_ok_prefix(shapes, j),
        j <= shapes.len(),
    ensures
        !ranks_ok_prefix(shapes, shapes.len() as int),
    decreases shapes.len() - j,
{
    if j < shapes.len() {
        lemma_ranks_bad_mono(shapes, j + 1);
    }
}

/// The first shape holding the greatest count of concretely known axes among
/// the first `j` closed shapes.
pub open spec fn best_prefix(shapes: Seq<ShapeView>, j: int) -> Option<int>
    decreases j,
{
    if j <= 0 {
        None
    } else {
        let b = best_prefix(shapes, j - 1);
        if shapes[j - 1] is Open {
            b
        } else {
            match b {
                None => Some(j - 1),
                Some(k) => if num_concrete(shapes[j - 1]->Closed_0) > num_concrete(
                    shapes[k]->Closed_0,
                ) {
                    Some(j - 1)
                } else {
                    b
                },
            }
        }
    }
}

/// What selecting the most specific shape yields: a rank mismatch among
/// closed shapes is a hard failure; otherwise the first shape attaining the
/// greatest count of concretely known axes, if any shape is closed at all.
pub open spec fn spec_most_specific(shapes: Seq<ShapeView>) -> Result<Option<int>, GraphError> {
    if ranks_ok_prefix(shapes, shapes.len() as int) {
        Ok(best_prefix(shapes, shapes.len() as int))
    } else {
        Err(GraphError::RankMismatch)
    }
}

/// Pick the most specific of several shapes: among the closed ones, which
/// must all have one rank, the first with the greatest count of concretely
/// known axes. The result is its position.
pub fn most_specific_shape(shapes: &Vec<ShapeFactoid>) -> (r: Result<Option<usize>, GraphError>)
    ensures
        (match spec_most_specific(shape_views(shapes@)) {
            Err(e) => r == Err::<Option<usize>, GraphError>(e),
            Ok(None) => r is Ok && r->Ok_0 is None,
            Ok(Some(k)) => r is Ok && r->Ok_0 is Some && r->Ok_0->Some_0 == k,
        }),
{
    let ghost views = shape_views(shapes@);
    let mut prev_rank: Option<usize> = None;
    let mut prev_concrete: Option<usize> = None;
    let mut best: Option<usize> = None;
    let mut i: usize = 0;
    while i < shapes.len()
        invariant
            i <= shapes@.len(),
            views == shape_views(shapes@),
            ranks_ok_prefix(views, i as int),
            (match first_closed_rank_prefix(views, i as int) {
                None => prev_rank is None,
                Some(r) => prev_rank is Some && prev_rank->Some_0 == r,
            }),
            (match best_prefix(views, i as int) {
                None => best is None && prev_concrete is None,
                Some(k) => best is Some && best->Some_0 == k && 0 <= k < i && views[k] is Closed
                    && prev_concrete is Some && prev_concrete->Some_0 == num_concrete(
                    views[k]->Closed_0,
                ),
            }),
        decreases shapes@.len() - i,
    {
        match &shapes[i] {
            ShapeFactoid::Open => {},
            ShapeFactoid::Closed(dims) => {
                let rank = dims.len();
                match &prev_rank {
                    Some(r) => {
                        if rank != *r {
                            proof {
                                lemma_ranks_bad_mono(views, i + 1);
                            }
                            return Err(GraphError::RankMismatch);
                        }
                    },
                    None => {},
                }
                prev_rank = Some(rank);

                let mut concrete: usize = 0;
                let mut t: usize = 0;
                while t < dims.len()
                    invariant
                        t <= dims@.len(),
                        concrete == num_concrete_prefix(dims@, t as int),
                        concrete <= t,
                    decreases dims@.len() - t,
                {
                    match &dims[t] {
                        Factoid::Only(_) => {
                            concrete = concrete + 1;
                        },
                        Factoid::Any => {},
                    }
                    t = t + 1;
                }

                let better = match &prev_concrete {
                    None => true,
                    Some(pc) => concrete > *pc,
                };
                if better {
                    prev_concrete = Some(concrete);
                    best = Some(i);
                }
            },
        }
        i = i + 1;
    }
    Ok(best)
}

} // verus!
