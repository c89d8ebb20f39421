//! Symbolic expression trees for single-variable polynomial-like expressions,
//! with verified differentiation and canonicalizing simplification.

pub mod entity;
pub mod laws;
pub mod model;
pub mod rewrite;
pub mod text;
