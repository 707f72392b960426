//! A small interactive shell core: quote-aware tokenizing, pipeline and
//! redirection parsing, glob expansion, and a persisted PATH store, all
//! stated over an explicit shell state so the logic is checkable in
//! isolation from the process environment.

pub mod errors;
pub mod export;
pub mod globx;
pub mod lines;
pub mod persist;
pub mod pipeline;
pub mod store;
pub mod text;
pub mod tokenizer;
