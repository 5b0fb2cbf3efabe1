//! Matrix operator set and convolution index arithmetic: the
//! expression-level surface of a dense-array backend.

pub mod conv;
pub mod conv_iter;
pub mod syntax;
