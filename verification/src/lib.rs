//! Compiles request specifications embedded in markdown documents into typed
//! request builders, and keeps the books of a batch of concurrently running
//! requests.

pub mod api;
pub mod batch;
pub mod context;
pub mod document;
pub mod errors;
pub mod runner;
pub mod string_map;
pub mod template;
pub mod text;
pub mod traits;
pub mod tree;
