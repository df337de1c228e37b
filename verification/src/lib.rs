//! A verified core for a journal-to-database ingest daemon.
//!
//! The library parses the systemd Journal Export Format incrementally,
//! groups fields into entries, and projects entries to database rows.
//! The surrounding process (I/O, the async tasks, the database client)
//! lives outside the library and drives it through plain values.

pub mod config;
pub mod decimal;
pub mod entry;
pub mod field;
pub mod metrics;
pub mod parser;
pub mod pipeline;
pub mod reader;
pub mod row;
pub mod text;
pub mod timestamp;
