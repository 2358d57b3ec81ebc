//! A policy-based access-control evaluator: a declarative model (request
//! shape, policy shape, role relations, matcher expression, effect rule), a
//! line-oriented policy store, and an enforcer that decides requests.
//!
//! The model and store are loaded once and are immutable afterwards; each
//! enforcement call is a pure function of (model, store, request) with a
//! contract that pins the decision exactly. Enforcement is fail-closed:
//! with no matching allow rule, the answer is deny.

pub mod effect;
pub mod enforcer;
pub mod errors;
pub mod expr;
pub mod model;
pub mod policy;
pub mod roles;
pub mod text;
pub mod value;
