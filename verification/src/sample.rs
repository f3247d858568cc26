//! The data a run produces: sample positions and their escape-time outcomes.

use vstd::prelude::*;

verus! {

/// One unit of the fixed-point representation: `SCALE` micro-units are `1.0`.
pub const SCALE: i64 = 1_000_000;

/// Largest coordinate magnitude (in micro-units) the evaluator accepts.
/// Positions produced from a well-formed grid always stay within it.
pub const COORD_LIMIT: i64 = 200_000_000;

/// A point of the complex plane, both components in micro-units.
#[derive(Clone, Copy, Debug, PartialEq, Eq, Structural)]
pub struct Position {
    pub re: i64,
    pub im: i64,
}

impl Position {
    /// Both components are small enough for the evaluator's arithmetic.
    pub open spec fn valid(self) -> bool {
        &&& -COORD_LIMIT <= self.re <= COORD_LIMIT
        &&& -COORD_LIMIT <= self.im <= COORD_LIMIT
    }
}

/// What the escape-time iteration decided for one position: either the orbit
/// stayed within the escape radius and the final modulus (in micro-units) is
/// kept, or it left the radius before the iteration budget ran out.
#[derive(Clone, Copy, Debug, PartialEq, Eq, Structural)]
pub enum Outcome {
    Converged(i64),
    Diverged,
}

/// A finished sample: a position together with its outcome.
#[derive(Clone, Copy, Debug, PartialEq, Eq, Structural)]
pub struct Sample {
    pub position: Position,
    pub outcome: Outcome,
}

} // verus!
