//! The decision logic of an HTTP proxy with response caching, header rules and
//! retry classification.

pub mod build_response;
pub mod cache;
pub mod entrypoint;
pub mod guarantees;
pub mod handler;
pub mod headers;
pub mod laws;
pub mod models;
pub mod response;
pub mod text;
pub mod utils;
