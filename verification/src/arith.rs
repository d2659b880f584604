//! Arithmetic on scalars, as the library asks for it.
//!
//! The library decides which operations are made, on which values and in
//! which order. It makes none itself: each is handed to an evaluator, a
//! function from an operation to its result, that the caller brings. What
//! the library states of its results it states over what the evaluator
//! gives.

use vstd::prelude::*;

verus! {

/// One operation on scalars.
#[derive(Clone, Copy, Debug, PartialEq)]
pub enum Op<S> {
    /// The number 0.
    Zero,
    /// The number 1.
    One,
    /// The sum of the two.
    Add(S, S),
    /// The first less the second.
    Sub(S, S),
    /// The product of the two.
    Mul(S, S),
    /// The first divided by the second.
    Div(S, S),
    /// The number times -1.
    Negate(S),
    /// The square root.
    Sqrt(S),
    /// The cosine of an angle in degrees.
    CosDegrees(S),
    /// The sine of an angle in degrees.
    SinDegrees(S),
}

/// `r` is a result of `op` under `eval`.
pub open spec fn gives<S, E: Fn(Op<S>) -> S>(eval: &E, op: Op<S>, r: S) -> bool {
    eval.ensures((op,), r)
}

/// `eval` takes every operation.
pub open spec fn total<S, E: Fn(Op<S>) -> S>(eval: &E) -> bool {
    forall|op: Op<S>| eval.requires((op,))
}

} // verus!
