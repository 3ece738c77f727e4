//! Core pieces of a statically typed language with physical dimensions:
//! a substitution engine that resolves type variables throughout an abstract
//! syntax tree, and a registry that computes canonical exponent-vector
//! representations for named units and dimensions.

pub mod typed_ast;
pub mod substitutions;
pub mod registry;
