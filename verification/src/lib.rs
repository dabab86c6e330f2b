//! Settings persistence for a desktop application: a six-field configuration
//! record, its JSON file format (encode, decode with default-on-missing), and
//! the pure decision logic of the load / save / delete / path operations.
//!
//! All filesystem access and host-framework glue live outside this crate; the
//! library works on plain values (strings, options) and is fully verified.

pub mod codec;
pub mod config;
pub mod error;
pub mod json;
pub mod roundtrip;
pub mod store;
pub mod text;
