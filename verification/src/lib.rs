//! Collection and topic-tagging pipeline: ingestion of platform content with
//! dedup guarantees, keyword-based topic extraction, co-occurrence tracking,
//! and a single-run collection guard.

pub mod adapters;
pub mod catalog;
pub mod clock;
pub mod errors;
pub mod extract;
pub mod ingest;
pub mod run;
pub mod settings;
pub mod store;
pub mod text;
