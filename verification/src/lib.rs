//! Synthetic fixture records for a document database.
//!
//! - `source`: the seeded random source, a stream of draws in which every
//!   draw is a function of the seed and of its position.
//! - `grammar` and `pattern`: the texts that a field may hold, as pieces of
//!   character classes and choices, built directly or read from a pattern.
//! - `schema`: field descriptors, value trees, and what it means for a tree
//!   to conform to a descriptor.
//! - `engine`: generation of a value tree from a descriptor and a source.
//! - `assemble`: the sparse document of a value tree.
//! - `user`: the registry of the user schema and of the schemas nested in it.
//! - `curriculum`: the curriculum and the selections made from it.
//! - `cli`: what the command line asks for.
//! - `failure`: the ways in which all this fails.

pub mod assemble;
pub mod cli;
pub mod curriculum;
pub mod engine;
pub mod failure;
pub mod grammar;
pub mod pattern;
pub mod schema;
pub mod source;
pub mod user;
