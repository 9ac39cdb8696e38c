use mcp_gateway_hub::config::AuthConfig;
use mcp_gateway_hub::gateway::{
    arguments_text, authenticate, bearer_token, plan_tool_call, required_scope, AuthStep,
    CallToolPayload, Claims, GatewayStatus,
};

fn claims(scopes: &[&str]) -> Claims {
    Claims {
        sub: "alice".to_string(),
        scopes: scopes.iter().map(|s| s.to_string()).collect(),
        exp: 0,
    }
}

fn auth(require_auth: bool) -> AuthConfig {
    AuthConfig { jwt_secret: "super_secret".to_string(), require_auth }
}

#[test]
fn required_scope_names_the_tool() {
    assert_eq!(required_scope(&"weather".to_string()), "tool:weather");
}

#[test]
fn scopes_grant_their_tool_or_every_tool() {
    let c = claims(&["tool:weather"]);
    assert!(c.may_call_tool(&"weather".to_string()));
    assert!(!c.may_call_tool(&"db".to_string()));
    let all = claims(&["tool:*"]);
    assert!(all.may_call_tool(&"db".to_string()));
    assert!(!claims(&[]).may_call_tool(&"db".to_string()));
    assert!(!claims(&["tool:weatherx", "weather"]).may_call_tool(&"weather".to_string()));
}

#[test]
fn anonymous_claims_grant_every_tool() {
    let c = Claims::anonymous();
    assert_eq!(c.sub, "anonymous");
    assert_eq!(c.scopes, vec!["tool:*".to_string()]);
    assert_eq!(c.exp, 0);
    assert!(c.may_call_tool(&"anything".to_string()));
}

#[test]
fn bearer_token_follows_the_prefix() {
    assert_eq!(bearer_token("Bearer abc.def").as_deref(), Some("abc.def"));
    assert_eq!(bearer_token("Bearer ").as_deref(), Some(""));
    assert_eq!(bearer_token("Basic abc"), None);
    assert_eq!(bearer_token("bearer abc"), None);
    assert_eq!(bearer_token("Bearer"), None);
    assert_eq!(bearer_token("").as_deref(), None);
}

#[test]
fn authentication_off_admits_anonymous() {
    match authenticate(&auth(false), None) {
        AuthStep::Admit(c) => assert_eq!(c.sub, "anonymous"),
        other => panic!("unexpected step {:?}", other),
    }
}

#[test]
fn authentication_on_needs_a_bearer_header() {
    assert!(matches!(
        authenticate(&auth(true), None),
        AuthStep::Reject(GatewayStatus::Unauthorized)
    ));
    assert!(matches!(
        authenticate(&auth(true), Some("Token x")),
        AuthStep::Reject(GatewayStatus::Unauthorized)
    ));
    match authenticate(&auth(true), Some("Bearer tok")) {
        AuthStep::Verify(t) => assert_eq!(t, "tok"),
        other => panic!("unexpected step {:?}", other),
    }
}

#[test]
fn status_codes() {
    assert_eq!(GatewayStatus::Unauthorized.code(), 401);
    assert_eq!(GatewayStatus::Forbidden.code(), 403);
    assert_eq!(GatewayStatus::InternalServerError.code(), 500);
}

#[test]
fn tool_call_without_scope_is_forbidden() {
    let payload = CallToolPayload { name: "db".to_string(), arguments: None };
    assert_eq!(plan_tool_call(&claims(&["tool:weather"]), &payload), Err(GatewayStatus::Forbidden));
}

#[test]
fn tool_call_arguments_become_json_text() {
    let payload = CallToolPayload { name: "weather".to_string(), arguments: None };
    assert_eq!(plan_tool_call(&claims(&["tool:weather"]), &payload).unwrap(), "{}");
    let value: serde_json::Value = serde_json::from_str("{\"city\":\"Oslo\"}").unwrap();
    let payload = CallToolPayload { name: "weather".to_string(), arguments: Some(value) };
    assert_eq!(plan_tool_call(&claims(&["tool:*"]), &payload).unwrap(), "{\"city\":\"Oslo\"}");
}

#[test]
fn arguments_text_falls_back_to_an_empty_object() {
    assert_eq!(arguments_text(None), "{}");
    assert_eq!(arguments_text(Some(Ok("[1]".to_string()))), "[1]");
    let err = serde_json::from_str::<serde_json::Value>("{").unwrap_err();
    assert_eq!(arguments_text(Some(Err(err))), "{}");
}

#[test]
fn present_arguments_are_forwarded_as_written_by_serde_json() {
    let value: serde_json::Value = serde_json::from_str("{ \"b\": [1, 2], \"a\": null }").unwrap();
    let expected = serde_json::to_string(&value).unwrap();
    let payload = CallToolPayload { name: "t".to_string(), arguments: Some(value) };
    assert_eq!(payload.arguments_json(), expected);
    assert_ne!(payload.arguments_json(), "{}");
    assert_eq!(plan_tool_call(&claims(&["tool:t"]), &payload).unwrap(), expected);
}
