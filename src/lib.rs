pub mod tag_spec;
pub mod extract;
pub mod prompt;
pub mod chat;
pub mod ingest;
pub mod config;
