//! Core of a small interactive shell: line preprocessing (environment
//! variable expansion and whole-line aliases), tokenizing with a trailing
//! background marker, builtin command dispatch, and a table of background
//! processes keyed by process identifier.
pub mod builtins;
pub mod jobs;
pub mod preprocess;
pub mod text;
pub mod tokenize;
