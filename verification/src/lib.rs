//! Code search and replace: pattern matching with word boundaries, replacement
//! planning, result aggregation and the supporting configuration types.

pub mod text;
pub mod metrics;
pub mod unicode;
pub mod boundary;
pub mod matcher;
pub mod errors;
pub mod replace;
pub mod plan;
pub mod undo;
pub mod diff;
pub mod paths;
pub mod filters;
pub mod rtrace;
pub mod results;
pub mod config;
pub mod cache;
pub mod processor;
pub mod interactive;
pub mod workspace;
pub mod cli;
pub mod engine;
pub mod edit;
pub mod render;
