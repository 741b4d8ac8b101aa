//! Model of standard-library descriptions for a Lua linter: field schema
//! validation, inheritance merging, dotted-path lookup, and cross-library
//! suggestion notes.
pub mod field;
pub mod merge;
pub mod library;
pub mod raw;
pub mod suggest;
