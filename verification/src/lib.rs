use vstd::prelude::*;

pub mod text;
pub mod order;
pub mod model;
pub mod store;
pub mod like;
pub mod walk;
pub mod ingest;
pub mod engine;
pub mod overlay;
pub mod syntax;
pub mod pattern;
pub mod extract;
pub mod resolve;
pub mod framework;
pub mod cfg;
pub mod pipeline;
pub mod json;
pub mod server;
pub mod hosted;
pub mod mcp;
pub mod desktop;
pub mod export;
pub mod otel;

