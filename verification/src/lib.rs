//! Resolver and signature printer for a documentation item graph.
//!
//! The crate takes a graph of documented items (modules, functions,
//! structs, impls and the type expressions in their signatures), works
//! out one canonical path for every item, and prints trait
//! declarations and forwarding implementations for the functions and
//! structs of a chosen module.
pub mod generate;
pub mod generated;
pub mod model;
pub mod print;
pub mod resolver;
pub mod text;
pub mod toolchain;
pub mod visitor;
