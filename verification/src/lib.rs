//! Delegated-authority permission tokens ("nuts") for a runtime: a compact,
//! versioned, bit-packed binary format for module/method permission grants,
//! together with the wildcard-aware lookup and validation rules, all verified.

pub mod bits;
pub mod codec;
pub mod errors;
pub mod interpreter;
pub mod laws;
pub mod lookup;
pub mod method;
pub mod module;
pub mod trnnut;
pub mod v0;
pub mod validation;
pub mod wire;

pub use crate::errors::DecodeError;
pub use crate::interpreter::{ConstraintsInterpreter, ConstraintsOutcome, TypedValue};
pub use crate::lookup::WILDCARD;
pub use crate::method::Method;
pub use crate::module::{make_methods, Module};
pub use crate::trnnut::TRNNut;
pub use crate::v0::{make_modules, TRNNutV0};
pub use crate::validation::{RuntimeDomain, ValidationErr};
