//! Execution engine for a small, data-oriented logic language: programs are
//! flat, ordered sequences of typed steps that transform a JSON-like document
//! by reading and writing path-addressed locations. Reads fall back into the
//! `inputs` section, writes auto-create at most one level, and the engine's
//! whole behaviour is pinned down by the specification functions its
//! contracts name.

pub mod dsl;
pub mod eval;
pub mod json;
pub mod laws;
pub mod num;
pub mod path;
pub mod policy;
pub mod render;
pub mod runtime;
pub mod schema;
pub mod state;
pub mod text;
pub mod textio;
