//! A small task-tracking library: an in-memory task collection with stable,
//! reusable numeric identifiers, a textual codec that stores the collection
//! in one of several formats (TOML, JSON, YAML, XML), configuration-path
//! validation, and an import/export engine that converts the task file
//! between those formats.
//!
//! Every operation that can fail returns a typed error; the thin
//! command-line layer around this library is what turns an error into a
//! process exit.

mod chars;
pub mod config;
mod engine;
mod escape;
mod formats;
pub mod conversion;
pub mod error;
pub mod storage;
pub mod task;
pub mod tasks;

