//! A verified core for extracting a structured symbol model from a tree of
//! MATLAB source files.
//!
//! The crate turns one file's concrete syntax tree into a typed object
//! (function, class or script), assembles a name-indexed collection from a
//! file-system listing, resolves alias chains with cycle detection, and runs
//! a rule-based lint engine skeleton. File-system access and the syntax-tree
//! grammar live outside the verified code; everything the library decides is
//! stated in contracts and proved.

pub mod collection;
pub mod cst;
pub mod enums;
pub mod errors;
pub mod expressions;
pub mod lint;
pub mod objects;
pub mod parser;
pub mod paths;
