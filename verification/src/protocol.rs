//! The messages a daemon and the gateway exchange over their stream.
use std::collections::HashMap;
use vstd::prelude::*;

verus! {

/// A tool that a daemon offers.
#[derive(Debug, Clone)]
pub struct ToolInfo {
    pub name: String,
    pub description: String,
    pub input_schema_json: String,
}

/// A daemon announces itself and its tools.
#[derive(Debug)]
pub struct RegisterRequest {
    pub daemon_id: String,
    pub tools: Vec<ToolInfo>,
}

/// The gateway's answer to a registration.
#[derive(Debug)]
pub struct RegisterResponse {
    pub success: bool,
    pub message: String,
}

/// The gateway asks a daemon to run a tool.
#[derive(Debug)]
pub struct CallToolRequest {
    pub request_id: String,
    pub tool_name: String,
    pub arguments_json: String,
}

/// A daemon's answer to a tool call.
#[derive(Debug)]
pub struct CallToolResponse {
    pub request_id: String,
    pub success: bool,
    pub result_json: String,
    pub error_message: String,
}

/// The gateway asks a daemon to start an MCP server process.
#[derive(Debug)]
pub struct StartServerRequest {
    pub request_id: String,
    pub server_name: String,
    pub command: String,
    pub args: Vec<String>,
    pub env: HashMap<String, String>,
}

/// A daemon's answer to a start request.
#[derive(Debug)]
pub struct StartServerResponse {
    pub request_id: String,
    pub success: bool,
    pub message: String,
}

/// What the gateway sends to a daemon.
#[derive(Debug)]
pub enum GatewayPayload {
    RegisterAck(RegisterResponse),
    CallRequest(CallToolRequest),
    StartServer(StartServerRequest),
}

/// A message from the gateway to a daemon.
#[derive(Debug)]
pub struct GatewayMessage {
    pub payload: Option<GatewayPayload>,
}

/// What a daemon sends to the gateway.
#[derive(Debug)]
pub enum DaemonPayload {
    Register(RegisterRequest),
    CallResponse(CallToolResponse),
    StartServerResponse(StartServerResponse),
}

/// A message from a daemon to the gateway.
#[derive(Debug)]
pub struct DaemonMessage {
    pub payload: Option<DaemonPayload>,
}

} // verus!
