//! Corpus ingestion and word statistics for classical-language texts.

pub mod chars;
pub mod client;
pub mod db;
pub mod persist;
pub mod queries;
pub mod search;
pub mod stats;
pub mod text;
