//! The validation error taxonomy: a domain-tagged failure value returned when
//! a call is not authorized or its constraints cannot be evaluated.

use vstd::prelude::*;

verus! {

/// The runtime-call permission domain in which a validation failed.
#[derive(Clone, Copy, Debug, PartialEq, Eq, Structural)]
pub enum RuntimeDomain {
    Method,
    MethodArguments,
    Module,
}

impl RuntimeDomain {
    /// A human-readable name of the domain.
    pub fn message(&self) -> (r: String)
        ensures
            *self is Method ==> r@ == "method"@,
            *self is MethodArguments ==> r@ == "method arguments"@,
            *self is Module ==> r@ == "module"@,
    {
        match self {
            RuntimeDomain::Method => "method".to_owned(),
            RuntimeDomain::MethodArguments => "method arguments".to_owned(),
            RuntimeDomain::Module => "module".to_owned(),
        }
    }
}

/// Why a well-formed token refused a concrete call.
///
/// `NoPermission` is a legitimate deny: resolution or constraint evaluation
/// decided against the call. `ConstraintsInterpretation` says the embedded
/// constraint program itself could not be decoded or evaluated.
#[derive(Clone, Copy, Debug, PartialEq, Eq, Structural)]
pub enum ValidationErr<Domain> {
    NoPermission(Domain),
    ConstraintsInterpretation,
}

} // verus!
