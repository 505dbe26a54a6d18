//! Verified core of the LXD compute driver: instance naming, request and
//! response rules of the LXD REST API, cloud-init rendering, and the sandbox
//! registry with its lifecycle decisions.

pub mod text;
pub mod config;
pub mod strmap;
pub mod cloud_init;
pub mod lxd;
pub mod sandbox;
pub mod driver;
pub mod grpc;
