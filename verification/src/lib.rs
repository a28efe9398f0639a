//! Architecture conformance checking for a module-structured source tree.
//!
//! The crate builds a tree of module nodes from parsed source files, resolves
//! the textual use paths found in each module to concrete nodes of that tree,
//! and checks declarative access rules and cycle freedom over the resulting
//! use graph.

pub mod architecture;
pub mod builder;
pub mod cycle;
pub mod extract;
pub mod node;
pub mod objects;
pub mod options;
pub mod paths;
pub mod resolve;
pub mod rules;
pub mod syntax;
pub mod tree;
