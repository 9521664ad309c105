//! The capability boundary to the constraint-language interpreter.
//!
//! A constraints blob is an embedded `(data table, bytecode)` program in the
//! constraint language's own encoding. This crate treats the blob as opaque
//! bytes; decoding and evaluating it is the interpreter's job, injected by the
//! caller through the [`ConstraintsInterpreter`] trait so that it can be
//! swapped or mocked without touching the codec or the resolution rules.

use vstd::prelude::*;
use crate::validation::{RuntimeDomain, ValidationErr};

verus! {

/// A typed argument value handed to constraint evaluation: the closed set of
/// value shapes that the embedded data tables speak.
#[derive(Clone, Debug, PartialEq, Eq)]
pub enum TypedValue {
    Numeric(u64),
    StringLike(Vec<u8>),
}

/// What evaluating a constraints blob against a list of arguments yielded.
#[derive(Clone, Copy, Debug, PartialEq, Eq, Structural)]
pub enum ConstraintsOutcome {
    /// The embedded program evaluated to true: the arguments are permitted.
    Satisfied,
    /// The embedded program evaluated to false: the arguments are refused.
    Unsatisfied,
    /// The blob did not decode as a `(data table, bytecode)` pair, or the
    /// program could not be evaluated over these arguments.
    Invalid,
}

/// The validation result that a constraints evaluation outcome dictates: a
/// satisfied program permits the call, an unsatisfied one denies it on its
/// arguments, and an undecodable or unevaluable one is its own failure.
pub fn constraints_result(outcome: ConstraintsOutcome) -> (r: Result<
    (),
    ValidationErr<RuntimeDomain>,
>)
    ensures
        (outcome is Satisfied) <==> r == Ok::<(), ValidationErr<RuntimeDomain>>(()),
        (outcome is Unsatisfied) <==> r == Err::<(), _>(
            ValidationErr::NoPermission(RuntimeDomain::MethodArguments),
        ),
        (outcome is Invalid) <==> r == Err::<(), _>(ValidationErr::<RuntimeDomain>::ConstraintsInterpretation),
{
    match outcome {
        ConstraintsOutcome::Satisfied => Ok(()),
        ConstraintsOutcome::Unsatisfied => Err(
            ValidationErr::NoPermission(RuntimeDomain::MethodArguments),
        ),
        ConstraintsOutcome::Invalid => Err(ValidationErr::ConstraintsInterpretation),
    }
}

/// The constraint-language interpreter, as a capability handed in by the
/// caller: it decodes a constraints blob into its `(data table, bytecode)`
/// pair and evaluates the program against the call's arguments.
pub trait ConstraintsInterpreter {
    /// Decodes `constraints` and evaluates the embedded program over `args`.
    fn evaluate(&self, constraints: &[u8], args: &[TypedValue]) -> ConstraintsOutcome;
}

} // verus!
