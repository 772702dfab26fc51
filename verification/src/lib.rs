//! Verified core of a repository and crate scout: query encoding, request
//! planning, response normalisation, freshness dating, ranking order,
//! time-bounded caches, pick history, and the decisions of the command line
//! and of the stdio tool server.

pub mod text;
pub mod policy;
pub mod jev;
pub mod types;
pub mod cache;
pub mod search;
pub mod trend;
pub mod mcp;
pub mod cli;
pub mod json;
