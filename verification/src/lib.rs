//! A compiler from a declarative command-usage document to a shell-completion
//! script: a document model, a parser over declaration nodes, resolution
//! passes (global-flag propagation, include merging), a path-shaped naming
//! scheme for generated functions, and a memoizing code generator.

pub mod strutil;
pub mod namespace;
pub mod node;
pub mod usage;
pub mod parse;
pub mod resolve;
pub mod formatter;
pub mod generator;
pub mod mbase64;
pub mod laws;
