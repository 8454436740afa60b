//! A source-to-source transpiler for a small extension language.
//!
//! The crate parses source text against a fixed grammar into a parse tree
//! and walks that tree to emit C++ declaration lines: one function
//! prototype per function declaration, one empty type declaration per
//! structure declaration, and a visible comment for any construct the
//! transpiler does not map.

pub mod grammar;
pub mod lang;
pub mod parser;
pub mod props;
pub mod transpiler;
