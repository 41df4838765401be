//! Verified core of an MCP tool-federation runtime: server configuration,
//! tool routing, server supervision, the tool-result envelope, and the
//! conversation log with its integrity rules.
pub mod cache;
pub mod config;
pub mod cost;
pub mod dispatch;
pub mod layers;
pub mod log;
pub mod patterns;
pub mod providers;
pub mod runner;
pub mod supervisor;
pub mod text;
pub mod tool_map;
pub mod tools;
pub mod transport;
