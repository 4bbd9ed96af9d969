//! Log-ingestion and on-disk assembly core for a build pipeline's logging
//! layer.
//!
//! Remote build workers emit a stream of structured messages: a start-of-build
//! metadata event, incremental log-line events, and a terminal result event.
//! This crate classifies those messages, resolves a root-confined filesystem
//! location for each stream, bounds the number of simultaneously open file
//! resources with an LRU discipline, and assembles log lines with gap padding.
//! All filesystem and queue I/O is left to the embedding program; the library
//! computes paths, bytes to append, and cache decisions, and proves them
//! correct.

pub mod cache;
pub mod collector;
pub mod message;
pub mod metadata;
pub mod paths;
pub mod wire;
pub mod writer;
