use mcp_gateway_hub::config::ServerConfig;
use mcp_gateway_hub::text::{decimal_string, join3};

#[test]
fn listen_address_joins_host_and_port() {
    let s = ServerConfig { host: "0.0.0.0".to_string(), port: 8080 };
    assert_eq!(s.listen_address(), "0.0.0.0:8080");
    let s = ServerConfig { host: "localhost".to_string(), port: 0 };
    assert_eq!(s.listen_address(), "localhost:0");
    let s = ServerConfig { host: "::1".to_string(), port: 65535 };
    assert_eq!(s.listen_address(), "::1:65535");
}

#[test]
fn decimal_rendering() {
    assert_eq!(decimal_string(0), "0");
    assert_eq!(decimal_string(7), "7");
    assert_eq!(decimal_string(10), "10");
    assert_eq!(decimal_string(1009), "1009");
    for n in [1u16, 99, 100, 4242, 65535] {
        assert_eq!(decimal_string(n), n.to_string());
    }
}

#[test]
fn joining_text() {
    assert_eq!(join3("a", "", "c"), "ac");
}
