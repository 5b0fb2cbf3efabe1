//! Scalar operator set: the expression-level surface of a scalar backend.

pub mod syntax;
