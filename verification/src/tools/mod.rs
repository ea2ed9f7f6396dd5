//! The logic of the built-in tools.
pub mod summarize;
pub mod sandbox;
pub mod net;
pub mod shell;
pub mod query;
