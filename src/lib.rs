//! A local semantic memory engine: content resolution, deduplicated storage,
//! hybrid ranking, temporal decay and asynchronous ingest sessions, with the
//! agent-side helpers that feed it.

pub mod agent;
pub mod coordinator;
pub mod decay;
pub mod error;
pub mod hash;
mod ids;
pub mod evaluator;
pub mod instruction;
pub mod library;
pub mod manager;
pub mod message;
pub mod model_error;
pub mod order;
pub mod prompt;
pub mod ranking;
pub mod relationship;
pub mod resolver;
pub mod session;
pub mod store;
pub mod text;
pub mod tool_parser;
pub mod tools;
