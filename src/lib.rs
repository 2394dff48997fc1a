//! Expression evaluation, conditional chains and user-defined functions for a
//! CSS-superset stylesheet language.
pub mod common;
pub mod token;
pub mod value;
pub mod scope;
pub mod expr;
pub mod control;
pub mod function;
pub mod fs;

