//! The policy index of a cluster: pods, the Servers that claim their ports,
//! and the Authorizations attached to those Servers, joined into the config of
//! every pod port, with the updates that subscribed proxies receive.

pub mod authz;
pub mod config;
pub mod index;
pub mod labels;
pub mod table;
pub mod wire;
pub mod grpc;
pub mod laws;
