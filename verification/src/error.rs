//! Errors emitted by the trusted kernel.
use vstd::prelude::*;

use crate::syntax::Term;

verus! {

#[derive(Debug, Clone, PartialEq, Eq)]
pub enum KernelError {
    UnboundVariable(usize),
    ExpectedFunction,
    ExpectedPair,
    ExpectedType,
    TypeMismatch { expected: Term, found: Term },
    CannotInferLambda,
    /// A configured evaluator or quotation budget was exhausted.
    OutOfFuel,
    InvalidInductive(&'static str),
    /// A global name that neither the signature nor its constructors define.
    UnknownGlobal(String),
    /// A global whose typing rule the kernel does not implement yet.
    UnsupportedGlobal(String),
    /// A declaration or constructor name that is already taken.
    DuplicateDeclaration(String),
    /// A declaration outside the admitted fragment.
    InvalidDeclaration(&'static str),
    /// The named inductive occurs to the left of an arrow in a field type.
    NonPositiveOccurrence(String),
}

} // verus!
