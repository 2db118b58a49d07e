//! Call graphs of Rust source files.
//!
//! A source file is taken apart into its top-level functions
//! ([`file::extract_functions_with_content`]), every function learns which
//! known function names its body mentions ([`function::analyse_functions`]),
//! and the outcome is laid out as a directed graph ([`graph::build`]) that
//! can be written down in the DOT language ([`graph::serialize`]).
//!
//! Every function states its result over the mathematical view of its
//! arguments; the views are plain sequences of characters.

pub mod file;
pub mod function;
pub mod graph;
pub mod syntax;
pub mod text;
