//! Semantic grep over local code and text corpora: chunking, grep-line
//! parsing, model catalogue and validation, workspace profiles and the
//! decisions of the embedding runtime, each stated as a contract.

pub mod error;
pub mod text;
pub mod types;
pub mod chunk;
pub mod search;
pub mod embedder;
pub mod runtime;
pub mod daemon;
pub mod workspace;
pub mod settings;
pub mod format;
pub mod filter;
pub mod rank;
