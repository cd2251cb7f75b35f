//! A read-only passthrough filesystem adapter: identity mapping, attribute
//! translation and the decisions of the protocol's request handlers.
pub mod attr;
pub mod table;
pub mod handler;
