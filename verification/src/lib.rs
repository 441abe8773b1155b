//! Reorganization of a transpiled crate's module structure.
//!
//! An upstream C-to-Rust transpiler emits one module per original header
//! file and re-emits every declaration from a header into the module of each
//! translation unit that included it.  This library collapses that structure:
//! it classifies modules by the provenance attribute the transpiler left on
//! them, matches each header-generated module to the destination module it
//! logically belongs to, merges declarations while eliminating structural
//! duplicates, corrals all standard-library declarations into one synthetic
//! `stdlib` module, and cleans up dead imports and duplicated foreign blocks.

pub mod ast;
pub mod classify;
pub mod equiv;
pub mod maps;
pub mod matcher;
pub mod planner;
pub mod rewrite;
pub mod store;
pub mod strutil;
pub mod transform;
