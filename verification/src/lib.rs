//! The verified core of an MCP gateway hub: configuration, request
//! authorization, and the registry that routes tool calls to daemons.
pub mod config;
pub mod gateway;
pub mod json;
pub mod keyed;
pub mod mcp_client;
pub mod protocol;
pub mod registry;
pub mod text;
