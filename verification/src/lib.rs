//! Dataflow-graph intermediate representation for streaming tensor programs,
//! with partial-knowledge ("factoid") shape and type inference, a generic
//! graph-to-graph translator, and a pulsifier that rewrites a graph over an
//! unbounded streaming dimension into one over fixed-size pulses while
//! tracking the latency each output accumulates.

pub mod dim;
pub mod error;
pub mod fact;
pub mod factoid;
pub mod graph;
pub mod infer;
pub mod ops;
pub mod pulse;
pub mod pulsifier;
pub mod solver;
pub mod tensor;
pub mod translate;

pub use dim::{stream_dim, stream_symbol, Symbol, TDim};
pub use error::GraphError;
pub use fact::{DimFact, InferenceFact, ShapeFactoid, TypedFact};
pub use factoid::Factoid;
pub use graph::{Graph, Node, OutletId};
pub use infer::{
    infer_forward_basic, infer_forward_concrete, infer_shape_broadcasting, most_specific_shape,
};
pub use ops::{Const, Op};
pub use pulse::{PulsedFact, StreamFact};
pub use pulsifier::{PulsedModel, PulsedModelExt, Pulsifier, TypedModel};
pub use solver::{Rule, Solver};
pub use tensor::{DatumType, Tensor};
