//! A Sass compiler core: selectors, values, formal arguments and the
//! string functions, each with its contract.

pub mod selectors;
pub mod text;
pub mod value;
pub mod error;
pub mod css;
pub mod render;
pub mod functions;
pub mod variablescope;
pub mod sass;
pub mod spectest;
