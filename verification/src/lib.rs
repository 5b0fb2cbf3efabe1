//! A reverse-mode automatic-differentiation engine.
//!
//! The crate is organised around two cooperating pieces: an expression
//! graph builder ([`core_syntax`]) that turns arithmetic syntax into a
//! directed acyclic graph of nodes addressed by small integer identifiers,
//! and a computation graph ([`compute`]) that freezes the topology,
//! attaches per-node numeric state, and drives memoized forward evaluation
//! and reverse-mode gradient accumulation through a pluggable per-operator
//! rule set. Concrete numeric backends (scalar floats, dense matrices) are
//! external collaborators supplied by the caller at freeze time.
//!
//! The operator sets of the two reference backends live in [`float`] and
//! [`nar`] (the latter also holds the sliding-window index arithmetic of
//! two-dimensional convolution), and [`forward_mode`] holds an independent
//! forward-mode differentiator over dual numbers.

pub mod compute;
pub mod core_syntax;
pub mod float;
pub mod forward_mode;
pub mod nar;
