//! A minimal HTTP/1.1 protocol layer: request parsing from raw bytes,
//! route dispatch, response assembly with optional gzip compression,
//! and the per-connection keep-alive decision.
//!
//! Reading and writing the actual byte streams, the file storage, and the
//! listener are outside collaborators; this crate works on plain byte
//! buffers and values handed in from them.
pub mod conn;
pub mod handlers;
pub mod headers;
pub mod laws;
pub mod request;
pub mod response;
pub mod util;
