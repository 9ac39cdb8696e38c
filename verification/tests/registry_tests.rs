use mcp_gateway_hub::protocol::{
    CallToolResponse, DaemonMessage, DaemonPayload, GatewayPayload, RegisterRequest,
    StartServerResponse, ToolInfo,
};
use mcp_gateway_hub::registry::{
    call_reply, start_reply, DaemonAction, DaemonSession, RegistryError, ReplyOutcome,
    ToolRegistry,
};
use std::collections::HashMap;

type Registry = ToolRegistry<u32, &'static str, &'static str>;

fn tool(name: &str, schema: &str) -> ToolInfo {
    ToolInfo {
        name: name.to_string(),
        description: format!("{} tool", name),
        input_schema_json: schema.to_string(),
    }
}

fn register(reg: &mut Registry, daemon: &str, channel: u32, tools: Vec<ToolInfo>) {
    let ack = reg.register_daemon(
        RegisterRequest { daemon_id: daemon.to_string(), tools },
        channel,
    );
    match ack.payload {
        Some(GatewayPayload::RegisterAck(a)) => {
            assert!(a.success);
            assert_eq!(a.message, "Registered successfully");
        }
        other => panic!("unexpected ack {:?}", other),
    }
}

fn assert_v4_uuid(id: &str) {
    let chars: Vec<char> = id.chars().collect();
    assert_eq!(chars.len(), 36);
    for (i, c) in chars.iter().enumerate() {
        if [8, 13, 18, 23].contains(&i) {
            assert_eq!(*c, '-');
        } else {
            assert!(c.is_ascii_digit() || ('a'..='f').contains(c), "{}", id);
        }
    }
    assert_eq!(chars[14], '4');
    assert!(['8', '9', 'a', 'b'].contains(&chars[19]));
}

fn reply(request_id: &str, success: bool, result: &str, error: &str) -> CallToolResponse {
    CallToolResponse {
        request_id: request_id.to_string(),
        success,
        result_json: result.to_string(),
        error_message: error.to_string(),
    }
}

#[test]
fn new_registry_is_empty() {
    let reg = Registry::new();
    assert!(reg.get_all_tools().is_empty());
    assert!(reg.get_all_daemons().is_empty());
}

#[test]
fn registered_tools_are_listed_with_valid_schemas() {
    let mut reg = Registry::new();
    register(&mut reg, "d1", 7, vec![tool("echo", "{\"type\":\"object\"}"), tool("sum", "not json")]);
    let tools = reg.get_all_tools();
    assert_eq!(tools.len(), 2);
    assert_eq!(tools[0].name, "echo");
    assert_eq!(tools[0].description, "echo tool");
    assert_eq!(tools[0].daemon_id, "d1");
    assert_eq!(tools[0].input_schema_json.as_deref(), Some("{\"type\":\"object\"}"));
    assert_eq!(tools[1].name, "sum");
    assert_eq!(tools[1].input_schema_json, None);
}

#[test]
fn daemons_are_listed_with_their_tools() {
    let mut reg = Registry::new();
    register(&mut reg, "d1", 1, vec![tool("a", "{}"), tool("b", "{}")]);
    register(&mut reg, "d2", 2, vec![tool("c", "{}")]);
    let daemons = reg.get_all_daemons();
    assert_eq!(daemons.len(), 2);
    assert_eq!(daemons[0].id, "d1");
    assert_eq!(daemons[0].status, "connected");
    assert_eq!(daemons[0].tools, vec!["a".to_string(), "b".to_string()]);
    assert_eq!(daemons[0].tools_count, 2);
    assert_eq!(daemons[1].id, "d2");
    assert_eq!(daemons[1].tools, vec!["c".to_string()]);
    assert_eq!(daemons[1].tools_count, 1);
}

#[test]
fn later_registration_takes_over_a_tool_name() {
    let mut reg = Registry::new();
    register(&mut reg, "d1", 1, vec![tool("a", "{}")]);
    register(&mut reg, "d2", 2, vec![tool("a", "[]")]);
    let tools = reg.get_all_tools();
    assert_eq!(tools.len(), 1);
    assert_eq!(tools[0].daemon_id, "d2");
    let out = reg
        .begin_call_with_id("a".to_string(), "{}".to_string(), "r1".to_string(), "w")
        .unwrap();
    assert_eq!(out.channel, 2);
    let daemons = reg.get_all_daemons();
    assert_eq!(daemons[0].tools_count, 0);
    assert_eq!(daemons[1].tools, vec!["a".to_string()]);
}

#[test]
fn call_is_routed_to_the_daemon_of_the_tool() {
    let mut reg = Registry::new();
    register(&mut reg, "d1", 11, vec![tool("echo", "{}")]);
    register(&mut reg, "d2", 22, vec![tool("sum", "{}")]);
    let out = reg
        .begin_call_with_id("sum".to_string(), "{\"x\":1}".to_string(), "req-9".to_string(), "w")
        .unwrap();
    assert_eq!(out.channel, 22);
    assert_eq!(out.request_id, "req-9");
    match out.message.payload {
        Some(GatewayPayload::CallRequest(req)) => {
            assert_eq!(req.request_id, "req-9");
            assert_eq!(req.tool_name, "sum");
            assert_eq!(req.arguments_json, "{\"x\":1}");
        }
        other => panic!("unexpected message {:?}", other),
    }
}

#[test]
fn call_to_unknown_tool_fails() {
    let mut reg = Registry::new();
    let err = reg
        .begin_call_with_id("nope".to_string(), "{}".to_string(), "r".to_string(), "w")
        .unwrap_err();
    assert_eq!(err.message(), "Tool nope not found");
    assert!(reg.take_pending_call(&"r".to_string()).is_none());
}

#[test]
fn fresh_call_ids_are_awaited_until_finished() {
    let mut reg = Registry::new();
    register(&mut reg, "d1", 1, vec![tool("echo", "{}")]);
    let out = reg.begin_call("echo".to_string(), "{}".to_string(), "w").unwrap();
    assert_v4_uuid(&out.request_id);
    let result = reg.finish_call(
        &out.request_id,
        ReplyOutcome::Replied(reply(&out.request_id, true, "{\"ok\":true}", "")),
    );
    assert_eq!(result.unwrap(), "{\"ok\":true}");
    assert!(reg.take_pending_call(&out.request_id).is_none());
}

#[test]
fn call_results_follow_the_outcome() {
    let mut reg = Registry::new();
    register(&mut reg, "d1", 1, vec![tool("echo", "{}")]);
    for (id, outcome, expected) in vec![
        ("a", ReplyOutcome::Replied(reply("a", true, "not json", "")), Ok("{}".to_string())),
        ("b", ReplyOutcome::Replied(reply("b", false, "", "boom")), Err("Tool execution failed: boom".to_string())),
        ("c", ReplyOutcome::Failed("status: Unavailable".to_string()), Err("gRPC error: status: Unavailable".to_string())),
        ("d", ReplyOutcome::ChannelClosed, Err("Internal channel closed".to_string())),
        ("e", ReplyOutcome::TimedOut, Err("Timeout waiting for daemon response".to_string())),
    ] {
        reg.begin_call_with_id("echo".to_string(), "{}".to_string(), id.to_string(), "w").unwrap();
        let got = reg.finish_call(&id.to_string(), outcome).map_err(|e| e.message());
        assert_eq!(got, expected);
        assert!(reg.take_pending_call(&id.to_string()).is_none());
    }
}

#[test]
fn call_reply_uses_an_empty_object_for_non_json_results() {
    let r = call_reply(ReplyOutcome::Replied(reply("x", true, "[1,2]", "")), true);
    assert_eq!(r.unwrap(), "[1,2]");
    let r = call_reply(ReplyOutcome::Replied(reply("x", true, "[1,2", "")), false);
    assert_eq!(r.unwrap(), "{}");
}

#[test]
fn abandoned_call_is_forgotten() {
    let mut reg = Registry::new();
    register(&mut reg, "d1", 1, vec![tool("echo", "{}")]);
    reg.begin_call_with_id("echo".to_string(), "{}".to_string(), "r1".to_string(), "w").unwrap();
    let err = reg.abandon_call(&"r1".to_string(), "channel closed".to_string());
    assert_eq!(err.message(), "Failed to send request to daemon: channel closed");
    assert!(reg.take_pending_call(&"r1".to_string()).is_none());
}

#[test]
fn daemon_answers_reach_their_waiter_once() {
    let mut reg = Registry::new();
    let mut session = DaemonSession { daemon_id: None };
    let action = reg.handle_daemon_message(
        &mut session,
        DaemonMessage {
            payload: Some(DaemonPayload::Register(RegisterRequest {
                daemon_id: "d1".to_string(),
                tools: vec![tool("echo", "{}")],
            })),
        },
        5,
    );
    assert!(matches!(action, DaemonAction::Reply(_)));
    assert_eq!(session.daemon_id.as_deref(), Some("d1"));
    reg.begin_call_with_id("echo".to_string(), "{}".to_string(), "r1".to_string(), "waiter")
        .unwrap();
    let answer = || DaemonMessage {
        payload: Some(DaemonPayload::CallResponse(reply("r1", true, "1", ""))),
    };
    match reg.handle_daemon_message(&mut session, answer(), 5) {
        DaemonAction::DeliverCall(w, resp) => {
            assert_eq!(w, "waiter");
            assert_eq!(resp.result_json, "1");
        }
        other => panic!("unexpected action {:?}", other),
    }
    match reg.handle_daemon_message(&mut session, answer(), 5) {
        DaemonAction::UnknownCallResponse(id) => assert_eq!(id, "r1"),
        other => panic!("unexpected action {:?}", other),
    }
    let empty = reg.handle_daemon_message(&mut session, DaemonMessage { payload: None }, 5);
    assert!(matches!(empty, DaemonAction::Ignore));
}

#[test]
fn ending_a_session_disconnects_its_daemon() {
    let mut reg = Registry::new();
    register(&mut reg, "d1", 1, vec![tool("a", "{}"), tool("b", "{}")]);
    register(&mut reg, "d2", 2, vec![tool("c", "{}")]);
    reg.end_session(DaemonSession { daemon_id: Some("d1".to_string()) });
    let tools = reg.get_all_tools();
    assert_eq!(tools.len(), 1);
    assert_eq!(tools[0].name, "c");
    let daemons = reg.get_all_daemons();
    assert_eq!(daemons.len(), 1);
    assert_eq!(daemons[0].id, "d2");
    let err = reg
        .begin_call_with_id("a".to_string(), "{}".to_string(), "r".to_string(), "w")
        .unwrap_err();
    assert!(matches!(err, RegistryError::ToolNotFound(_)));
    reg.end_session(DaemonSession { daemon_id: None });
    assert_eq!(reg.get_all_daemons().len(), 1);
}

#[test]
fn start_request_goes_to_a_connected_daemon() {
    let mut reg = Registry::new();
    register(&mut reg, "d1", 3, vec![]);
    let mut env = HashMap::new();
    env.insert("KEY".to_string(), "v".to_string());
    let out = reg
        .begin_start_with_id(
            "d1".to_string(),
            "weather".to_string(),
            "python".to_string(),
            vec!["w.py".to_string()],
            env,
            "s1".to_string(),
            "sw",
        )
        .unwrap();
    assert_eq!(out.channel, 3);
    match out.message.payload {
        Some(GatewayPayload::StartServer(req)) => {
            assert_eq!(req.request_id, "s1");
            assert_eq!(req.server_name, "weather");
            assert_eq!(req.command, "python");
            assert_eq!(req.args, vec!["w.py".to_string()]);
            assert_eq!(req.env.get("KEY").map(|s| s.as_str()), Some("v"));
        }
        other => panic!("unexpected message {:?}", other),
    }
    let done = reg.finish_start(
        &"s1".to_string(),
        ReplyOutcome::Replied(StartServerResponse {
            request_id: "s1".to_string(),
            success: true,
            message: String::new(),
        }),
    );
    assert!(done.is_ok());
    assert!(reg.take_pending_start(&"s1".to_string()).is_none());
}

#[test]
fn start_request_to_unknown_daemon_fails() {
    let mut reg = Registry::new();
    let err = reg
        .begin_start(
            "ghost".to_string(),
            "x".to_string(),
            "y".to_string(),
            vec![],
            HashMap::new(),
            "sw",
        )
        .unwrap_err();
    assert_eq!(err.message(), "Daemon ghost disconnected");
}

#[test]
fn start_results_follow_the_outcome() {
    let failed = start_reply(ReplyOutcome::Replied(StartServerResponse {
        request_id: "s".to_string(),
        success: false,
        message: "no such file".to_string(),
    }));
    assert_eq!(failed.unwrap_err().message(), "Server start failed: no such file");
    assert_eq!(
        start_reply(ReplyOutcome::TimedOut).unwrap_err().message(),
        "Timeout waiting for daemon response"
    );
    assert_eq!(
        start_reply(ReplyOutcome::Failed("gone".to_string())).unwrap_err().message(),
        "gRPC error: gone"
    );
    assert_eq!(
        start_reply(ReplyOutcome::ChannelClosed).unwrap_err().message(),
        "Internal channel closed"
    );
    assert_eq!(
        RegistryError::StartSendFailed("closed".to_string()).message(),
        "Failed to send StartServer: closed"
    );
}

#[test]
fn start_answers_reach_their_waiter() {
    let mut reg = Registry::new();
    register(&mut reg, "d1", 3, vec![]);
    reg.begin_start_with_id(
        "d1".to_string(),
        "n".to_string(),
        "c".to_string(),
        vec![],
        HashMap::new(),
        "s1".to_string(),
        "start-waiter",
    )
    .unwrap();
    let mut session = DaemonSession { daemon_id: Some("d1".to_string()) };
    let msg = || DaemonMessage {
        payload: Some(DaemonPayload::StartServerResponse(StartServerResponse {
            request_id: "s1".to_string(),
            success: true,
            message: "ok".to_string(),
        })),
    };
    match reg.handle_daemon_message(&mut session, msg(), 3) {
        DaemonAction::DeliverStart(w, resp) => {
            assert_eq!(w, "start-waiter");
            assert_eq!(resp.message, "ok");
        }
        other => panic!("unexpected action {:?}", other),
    }
    assert!(matches!(
        reg.handle_daemon_message(&mut session, msg(), 3),
        DaemonAction::UnknownStartResponse(_)
    ));
}

#[test]
fn fresh_start_ids_have_the_uuid_form() {
    let mut reg = Registry::new();
    register(&mut reg, "d1", 3, vec![]);
    let a = reg
        .begin_start("d1".to_string(), "n".to_string(), "c".to_string(), vec![], HashMap::new(), "s")
        .unwrap();
    let b = reg
        .begin_start("d1".to_string(), "n".to_string(), "c".to_string(), vec![], HashMap::new(), "t")
        .unwrap();
    assert_v4_uuid(&a.request_id);
    assert_v4_uuid(&b.request_id);
    assert_ne!(a.request_id, b.request_id);
}

#[test]
fn register_then_disconnect_leaves_no_trace() {
    let mut reg = Registry::new();
    register(&mut reg, "d1", 1, vec![tool("a", "{}"), tool("b", "x")]);
    let tools_before: Vec<(String, String, Option<String>)> = reg
        .get_all_tools()
        .into_iter()
        .map(|t| (t.name, t.daemon_id, t.input_schema_json))
        .collect();
    let daemons_before: Vec<(String, Vec<String>)> =
        reg.get_all_daemons().into_iter().map(|d| (d.id, d.tools)).collect();
    let mut session = DaemonSession { daemon_id: None };
    reg.handle_daemon_message(
        &mut session,
        DaemonMessage {
            payload: Some(DaemonPayload::Register(RegisterRequest {
                daemon_id: "d2".to_string(),
                tools: vec![tool("c", "{}"), tool("d", "{}"), tool("c", "[]")],
            })),
        },
        2,
    );
    reg.handle_daemon_message(&mut session, DaemonMessage { payload: None }, 2);
    reg.end_session(session);
    let tools_after: Vec<(String, String, Option<String>)> = reg
        .get_all_tools()
        .into_iter()
        .map(|t| (t.name, t.daemon_id, t.input_schema_json))
        .collect();
    let daemons_after: Vec<(String, Vec<String>)> =
        reg.get_all_daemons().into_iter().map(|d| (d.id, d.tools)).collect();
    assert_eq!(tools_after, tools_before);
    assert_eq!(daemons_after, daemons_before);
}
