//! The rules of a semantic package manager: how sources are named, how indexes
//! are cut and searched, and how a workspace records what it installs.

pub mod accel;
pub mod adding;
pub mod candidates;
pub mod chunker;
pub mod codegraph;
pub mod deps;
pub mod docs;
pub mod embedding;
pub mod error;
pub mod github;
pub mod graph;
pub mod hits;
pub mod indexing;
pub mod inference;
pub mod json;
pub mod lance;
pub mod lookup;
pub mod manifest;
pub mod mcp;
pub mod messages;
pub mod openai;
pub mod packages;
pub mod packing;
pub mod paths;
pub mod pieces;
pub mod providers;
pub mod qmd;
pub mod query_expansion;
pub mod rank;
pub mod registry;
pub mod report;
pub mod reranker;
pub mod search;
pub mod session;
pub mod settings;
pub mod sources;
pub mod status;
pub mod store;
pub mod strmap;
pub mod symbols;
pub mod text;
pub mod toml_doc;
pub mod toml_layout;
pub mod versions;
pub mod windows;
pub mod wire;
