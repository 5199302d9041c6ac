pub mod text;
pub mod query;
pub mod error;
pub mod parse;
pub mod value;
pub mod metadata;
pub mod command_metadata;
pub mod plan;
pub mod state;
pub mod cache;
pub mod keyed;
pub mod store;
pub mod commands;
pub mod interpreter;
pub mod roundtrip;
pub mod laws;
pub mod context;
pub mod service;
