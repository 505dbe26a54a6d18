//! The LXD REST API: errors, names, paths, typed payloads and responses.

pub mod api;
pub mod client;
pub mod models;
pub mod operations;
