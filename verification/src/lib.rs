//! A knowledge vault of markdown notes joined by wiki-style links.
//!
//! The library indexes notes, builds the graph of their links, searches
//! them, prepares them for semantic search, caches their contents and
//! filters sensitive content; reading and writing files, the embedding
//! model and the server around it are the caller's part.

pub mod cache;
pub mod config;
pub mod embedding;
pub mod filter;
pub mod graph;
pub mod order;
pub mod paths;
pub mod search;
pub mod server;
pub mod text;
pub mod validation;
pub mod vault;
pub mod watcher;

pub use config::Config;
pub use filter::SensitiveDataFilter;
