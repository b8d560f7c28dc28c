//! An HTTP request tool's verified core: URL normalization and query
//! merging, request assembly (headers, body policy, timeout), response
//! normalization, transport-error classification, and a bounded,
//! persisted request history.
//!
//! Network and file I/O stay outside this crate; the functions here
//! turn plain values into plain values and carry contracts for it.
pub mod codec;
pub mod executor;
pub mod history;
pub mod kv;
pub mod model;
pub mod num;
pub mod text;
pub mod url_build;
pub mod utils;
