//! `ragd`: a generic indexing and retrieval daemon for local text.

pub mod text;
pub mod text_laws;
pub mod chunker;
pub mod chunk_laws;
pub mod split_laws;
pub mod error;
pub mod db;
pub mod db_laws;
pub mod columns;
pub mod batches;
pub mod batch_laws;
pub mod store;
pub mod store_laws;
pub mod table_laws;
pub mod config;
pub mod config_laws;
pub mod resource;
pub mod resource_laws;
pub mod indexer;
pub mod index_laws;
pub mod scan_laws;
pub mod watcher;
pub mod gitignore;
pub mod ignore_laws;
pub mod openai_client;
pub mod client_laws;
pub mod server;
pub mod server_laws;
