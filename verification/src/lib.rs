//! Keeps a diagram's symbolic references to source-code entities in step with
//! the code itself, by talking to a code-intelligence server.
//!
//! This crate holds the verified core: the reference-descriptor grammar, the
//! name normalizer, the two symbol-tree matchers, the indexing-readiness
//! signal, and the small pure helpers the session logic is built from.
//! Process and pipe handling live outside the library.

pub mod chars;
pub mod locate;
pub mod noderef;
pub mod normalize;
pub mod numbers;
pub mod outline;
pub mod resolver;
pub mod session;
