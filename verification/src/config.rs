//! The configuration the hub reads at start-up.
use std::collections::HashMap;
use vstd::prelude::*;
use crate::text::{decimal, decimal_string, digits_value, join3, lemma_decimal_denotes};

verus! {

/// The contents of `gateway.yml`.
#[derive(Debug, Clone)]
pub struct GatewayConfig {
    pub server: ServerConfig,
    pub auth: AuthConfig,
}

/// Where the HTTP gateway listens.
#[derive(Debug, Clone)]
pub struct ServerConfig {
    pub host: String,
    pub port: u16,
}

/// How requests to the gateway are authenticated.
#[derive(Debug, Clone)]
pub struct AuthConfig {
    pub jwt_secret: String,
    pub require_auth: bool,
}

/// The contents of `mcp.json`.
#[derive(Debug)]
pub struct McpConfig {
    pub client_info: ClientInfo,
    pub capabilities: HashMap<String, serde_json::Value>,
}

/// How the hub introduces itself to MCP servers.
#[derive(Debug)]
pub struct ClientInfo {
    pub name: String,
    pub version: String,
}

/// The contents of `daemon.yml`.
#[derive(Debug)]
pub struct DaemonConfig {
    pub gateway_url: String,
    pub daemon_id: String,
    pub servers: Vec<ServerProcessConfig>,
}

/// One MCP server process that a daemon starts.
#[derive(Debug, Clone)]
pub struct ServerProcessConfig {
    pub name: String,
    pub command: String,
    pub args: Vec<String>,
    pub env: HashMap<String, String>,
}

/// `host:port`, the port in decimal.
pub open spec fn spec_listen_address(host: Seq<char>, port: u16) -> Seq<char> {
    host + seq![':'] + decimal(port as nat)
}

/// The listen address is the host, then a colon, then decimal digits that
/// denote the port; so the port is what follows the host and the colon.
pub proof fn lemma_listen_address_parts(host: Seq<char>, port: u16)
    ensures
        spec_listen_address(host, port).subrange(0, host.len() as int) == host,
        spec_listen_address(host, port)[host.len() as int] == ':',
        digits_value(
            spec_listen_address(host, port).subrange(
                host.len() + 1 as int,
                spec_listen_address(host, port).len() as int,
            ),
        ) == port,
        forall|i: int|
            host.len() < i < spec_listen_address(host, port).len() ==> '0'
                <= #[trigger] spec_listen_address(host, port)[i] <= '9',
{
    let a = spec_listen_address(host, port);
    let d = decimal(port as nat);
    lemma_decimal_denotes(port as nat);
    assert(a.subrange(0, host.len() as int) =~= host);
    assert(a.subrange(host.len() + 1 as int, a.len() as int) =~= d);
    assert forall|i: int| host.len() < i < a.len() implies '0' <= #[trigger] a[i] <= '9' by {
        assert(a[i] == d[i - host.len() - 1]);
    }
}

impl ServerConfig {
    /// The address the gateway binds: the host, a colon, and the port in decimal.
    pub fn listen_address(&self) -> (addr: String)
        ensures
            addr@ == spec_listen_address(self.host@, self.port),
    {
        let port = decimal_string(self.port);
        proof {
            reveal_strlit(":");
        }
        let addr = join3(self.host.as_str(), ":", port.as_str());
        assert(addr@ =~= spec_listen_address(self.host@, self.port));
        addr
    }
}

} // verus!
