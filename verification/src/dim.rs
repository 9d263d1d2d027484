//! Symbolic tensor dimensions: a dimension is either a fixed length or an
//! affine expression `mul * sym + add` over a named symbol, such as the
//! reserved streaming-length symbol.

use vstd::prelude::*;

verus! {

/// A named symbol standing for a statically unknown length.
#[derive(Clone, Copy, PartialEq, Eq, Structural, Debug)]
pub struct Symbol {
    pub id: char,
}

/// The reserved symbol for the streaming dimension.
pub fn stream_symbol() -> (r: Symbol)
    ensures
        r == spec_stream_symbol(),
{
    Symbol { id: 'S' }
}

pub open spec fn spec_stream_symbol() -> Symbol {
    Symbol { id: 'S' }
}

/// A symbolic dimension: a literal length, or an affine expression over one
/// symbol. `Streamed { sym, mul, add }` stands for `mul * sym + add`, with
/// `mul >= 1` so the symbol really occurs.
#[derive(Clone, Copy, PartialEq, Eq, Structural, Debug)]
pub enum TDim {
    Fixed(usize),
    Streamed { sym: Symbol, mul: usize, add: usize },
}

/// The streaming length itself, as a dimension.
pub fn stream_dim() -> (r: TDim)
    ensures
        r == spec_stream_dim(),
{
    TDim::Streamed { sym: stream_symbol(), mul: 1, add: 0 }
}

pub open spec fn spec_stream_dim() -> TDim {
    TDim::Streamed { sym: spec_stream_symbol(), mul: 1, add: 0 }
}

impl TDim {
    /// A dimension is well formed when an affine term has a non-zero
    /// coefficient, so that `Streamed` always depends on its symbol.
    pub open spec fn wf(self) -> bool {
        match self {
            TDim::Fixed(_) => true,
            TDim::Streamed { mul, .. } => mul >= 1,
        }
    }

    pub open spec fn spec_is_concrete(self) -> bool {
        self is Fixed
    }

    /// Whether this dimension mentions the given symbol.
    pub open spec fn spec_has_symbol(self, s: Symbol) -> bool {
        match self {
            TDim::Fixed(_) => false,
            TDim::Streamed { sym, .. } => sym == s,
        }
    }

    pub fn has_symbol(&self, s: Symbol) -> (r: bool)
        ensures
            r == self.spec_has_symbol(s),
    {
        match self {
            TDim::Fixed(_) => false,
            TDim::Streamed { sym, .. } => sym.id == s.id,
        }
    }

    pub open spec fn spec_to_usize(self) -> Option<usize> {
        match self {
            TDim::Fixed(n) => Some(n),
            TDim::Streamed { .. } => None,
        }
    }

    /// The literal value of a concrete dimension.
    pub fn to_usize(&self) -> (r: Option<usize>)
        ensures
            r == self.spec_to_usize(),
    {
        match self {
            TDim::Fixed(n) => Some(*n),
            TDim::Streamed { .. } => None,
        }
    }

    pub open spec fn spec_is_one(self) -> bool {
        self == TDim::Fixed(1usize)
    }

    /// Whether this dimension is the literal 1, the neutral length for
    /// broadcasting.
    pub fn is_one(&self) -> (r: bool)
        ensures
            r == self.spec_is_one(),
    {
        match self {
            TDim::Fixed(n) => *n == 1usize,
            TDim::Streamed { .. } => false,
        }
    }
}

} // verus!
