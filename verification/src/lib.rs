//! The logic of an MCP gateway that enforces Rancher RBAC in front of upstream
//! MCP servers.
//!
//! - [`config`]: the servers behind the gateway, their role rules, and which
//!   configurations are valid.
//! - [`glob`]: tool name patterns.
//! - [`settings`]: what the environment and the configuration file decide.
//! - [`rancher_auth`]: from the credentials of a request to its user's roles.
//! - [`gateway`]: one endpoint: what it lists, and who may call what.
//! - [`upstream`]: requests to an upstream server, and how answers are read.
//! - [`sse`]: the events of a stream.
//! - [`status`] and [`text`]: HTTP statuses, and text.
//! - [`outside`]: what is taken from other crates, and what is believed of it.
//!
//! Reading files, sending requests and serving HTTP are left to the caller: the
//! functions here say what to do next, and take in what came of it.
use vstd::prelude::*;

pub mod config;
pub mod gateway;
pub mod glob;
pub mod outside;
pub mod rancher_auth;
pub mod settings;
pub mod sse;
pub mod status;
pub mod text;
pub mod upstream;

verus! {

} // verus!
