//! Typed errors. Every failure is surfaced to the caller; the library does
//! no local recovery.

use vstd::prelude::*;

verus! {

/// Failure to parse a model definition.
#[derive(Clone, Copy, Debug, PartialEq, Eq, Structural)]
pub enum ModelParseError {
    /// A required section (or its key) is missing.
    MissingSection,
    /// A line is not a section header or a `key = value` entry.
    BadLine,
    /// The policy effect is not one of the supported effect rules.
    UnknownEffect,
    /// The matcher expression is not in the supported grammar.
    MatcherSyntax,
    /// The matcher references a token that no definition declares.
    UndeclaredToken,
}

/// Failure to parse a policy source against a model.
#[derive(Clone, Copy, Debug, PartialEq, Eq, Structural)]
pub enum PolicyParseError {
    /// A rule's field count differs from the declared arity of its type.
    ArityMismatch,
    /// A rule's type prefix is neither `p` nor a declared `g`.
    UnknownRuleType,
}

/// Failure while evaluating the matcher expression on one candidate rule.
#[derive(Clone, Copy, Debug, PartialEq, Eq, Structural)]
pub enum MatcherEvalError {
    /// A field reference lies outside the request or rule.
    FieldRange,
    /// Attribute access on a request field that is not a structured value.
    NotAnObject,
    /// Attribute access with a key the structured value does not hold.
    UnknownAttribute,
    /// A role membership predicate applied to a non-string argument.
    RoleArgNotString,
}

/// Failure of an enforcement call.
#[derive(Clone, Copy, Debug, PartialEq, Eq, Structural)]
pub enum EnforceError {
    /// The request arity differs from the model's request definition.
    RequestArity,
    /// The matcher failed on some candidate rule.
    Matcher(MatcherEvalError),
}

} // verus!
