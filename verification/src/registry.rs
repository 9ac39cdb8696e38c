//! The gateway's registry of connected daemons, the tools they offer, and
//! the requests that wait for a daemon's answer.
//!
//! The registry is generic over the channel kinds that the transport uses:
//! `D` reaches a daemon, `C` hands a tool-call answer to its waiter, and
//! `S` hands a start-server answer to its waiter. It only stores them.
use std::collections::HashMap;
use vstd::prelude::*;
use crate::json::{json_text_parses, parses_as_json};
use crate::keyed::{
    delete, entries_view, has_key, key_position, lemma_delete_unique, lemma_filter_subset,
    lemma_filter_keeps_all, lemma_filter_keeps_none, lemma_filter_take_step, lemma_key_position, lemma_lookup_has_key,
    lemma_lookup_upsert, lemma_upsert_entries, lemma_upsert_unique, lookup, unique_keys, upsert,
    KeyedList,
};
use crate::protocol::{
    CallToolRequest, CallToolResponse, DaemonMessage, DaemonPayload, GatewayMessage,
    GatewayPayload, RegisterRequest, RegisterResponse, StartServerRequest, StartServerResponse,
    ToolInfo,
};
use crate::text::{join2, join3, views};

verus! {

/// A registered tool and the daemon that offers it.
#[derive(Debug)]
pub struct ToolRecord {
    pub daemon_id: String,
    pub info: ToolInfo,
}

/// The entry is a tool of daemon `id`.
pub open spec fn owned_by(id: Seq<char>) -> spec_fn((Seq<char>, ToolRecord)) -> bool {
    |e: (Seq<char>, ToolRecord)| e.1.daemon_id@ == id
}

/// The entry is not a tool of daemon `id`.
pub open spec fn not_owned_by(id: Seq<char>) -> spec_fn((Seq<char>, ToolRecord)) -> bool {
    |e: (Seq<char>, ToolRecord)| e.1.daemon_id@ != id
}

/// The tool table after a daemon registers `tools`, in order: each tool is
/// stored under its name, a later tool of the same name replacing an earlier one.
pub open spec fn register_tools(
    s: Seq<(Seq<char>, ToolRecord)>,
    daemon_id: String,
    tools: Seq<ToolInfo>,
) -> Seq<(Seq<char>, ToolRecord)>
    decreases tools.len(),
{
    if tools.len() == 0 {
        s
    } else {
        upsert(
            register_tools(s, daemon_id, tools.drop_last()),
            tools.last().name@,
            ToolRecord { daemon_id, info: tools.last() },
        )
    }
}

/// The names of the tools of daemon `id`, in table order.
pub open spec fn tool_names_of(s: Seq<(Seq<char>, ToolRecord)>, id: Seq<char>) -> Seq<Seq<char>> {
    s.filter(owned_by(id)).map_values(|e: (Seq<char>, ToolRecord)| e.1.info.name@)
}

/// Every tool is stored under its own name and belongs to a connected daemon.
pub open spec fn tables_consistent<D>(
    tools: Seq<(Seq<char>, ToolRecord)>,
    daemons: Seq<(Seq<char>, D)>,
) -> bool {
    forall|i: int|
        0 <= i < tools.len() ==> has_key(daemons, #[trigger] tools[i].1.daemon_id@) && tools[i].0
            == tools[i].1.info.name@
}


/// The names of a list of tools.
pub open spec fn tool_names(tools: Seq<ToolInfo>) -> Seq<Seq<char>> {
    tools.map_values(|t: ToolInfo| t.name@)
}

/// After a daemon registers a list of tools, each of those names leads to a
/// record of that daemon for a tool of that name, and every other name leads
/// where it led before.
pub proof fn lemma_registered_tools_route(
    s: Seq<(Seq<char>, ToolRecord)>,
    daemon_id: String,
    tools: Seq<ToolInfo>,
    name: Seq<char>,
)
    requires
        unique_keys(s),
    ensures
        unique_keys(register_tools(s, daemon_id, tools)),
        tool_names(tools).contains(name) ==> (lookup(register_tools(s, daemon_id, tools), name) matches Some(rec)
            && rec.daemon_id == daemon_id && rec.info.name@ == name),
        !tool_names(tools).contains(name) ==> lookup(register_tools(s, daemon_id, tools), name)
            == lookup(s, name),
    decreases tools.len(),
{
    if tools.len() > 0 {
        let init = tools.drop_last();
        let last = tools.last();
        lemma_registered_tools_route(s, daemon_id, init, name);
        let r = register_tools(s, daemon_id, init);
        let rec = ToolRecord { daemon_id, info: last };
        lemma_lookup_upsert(r, last.name@, rec);
        lemma_upsert_unique(r, last.name@, rec);
        assert(tool_names(tools) == tool_names(init).push(last.name@));
        if name != last.name@ {
            if tool_names(tools).contains(name) {
                let j = choose|j: int| 0 <= j < tool_names(tools).len() && tool_names(tools)[j] == name;
                assert(tool_names(init)[j] == name);
            }
            if tool_names(init).contains(name) {
                let j = choose|j: int| 0 <= j < tool_names(init).len() && tool_names(init)[j] == name;
                assert(tool_names(tools)[j] == name);
            }
        } else {
            assert(tool_names(tools)[tools.len() - 1] == name);
        }
    }
}

/// After a daemon registers, a call for any tool it announced is routed to
/// that daemon's channel: the tool leads to the daemon, and the daemon's id
/// to the channel it registered with.
pub proof fn lemma_registered_tool_reaches_its_daemon<D>(
    tools: Seq<(Seq<char>, ToolRecord)>,
    daemons: Seq<(Seq<char>, D)>,
    request: RegisterRequest,
    channel: D,
    name: Seq<char>,
)
    requires
        unique_keys(tools),
        unique_keys(daemons),
        tool_names(request.tools@).contains(name),
    ensures
        lookup(register_tools(tools, request.daemon_id, request.tools@), name) matches Some(rec)
            && lookup(upsert(daemons, request.daemon_id@, channel), rec.daemon_id@) == Some(
            channel,
        ),
{
    lemma_registered_tools_route(tools, request.daemon_id, request.tools@, name);
    lemma_lookup_upsert(daemons, request.daemon_id@, channel);
}

/// Registering tools whose names are all new keeps the earlier entries as a
/// prefix, and every entry after them belongs to the registering daemon.
proof fn lemma_register_fresh_shape(
    s: Seq<(Seq<char>, ToolRecord)>,
    daemon_id: String,
    tools: Seq<ToolInfo>,
)
    requires
        forall|j: int| 0 <= j < tools.len() ==> !has_key(s, #[trigger] tools[j].name@),
    ensures
        register_tools(s, daemon_id, tools).len() >= s.len(),
        register_tools(s, daemon_id, tools).subrange(0, s.len() as int) == s,
        forall|i: int|
            s.len() <= i < register_tools(s, daemon_id, tools).len() ==> (#[trigger] register_tools(
                s,
                daemon_id,
                tools,
            )[i]).1.daemon_id == daemon_id,
    decreases tools.len(),
{
    if tools.len() == 0 {
        assert(s.subrange(0, s.len() as int) =~= s);
    } else {
        let init = tools.drop_last();
        let last = tools.last();
        assert forall|j: int| 0 <= j < init.len() implies !has_key(s, #[trigger] init[j].name@) by {
            assert(init[j] == tools[j]);
        }
        lemma_register_fresh_shape(s, daemon_id, init);
        let r = register_tools(s, daemon_id, init);
        let rec = ToolRecord { daemon_id, info: last };
        let k = last.name@;
        assert(!has_key(s, tools[tools.len() - 1].name@));
        let t = upsert(r, k, rec);
        assert(t == register_tools(s, daemon_id, tools));
        if has_key(r, k) {
            let p = key_position(r, k);
            assert(r[p].0 == k);
            if p < s.len() {
                assert(r.subrange(0, s.len() as int)[p] == r[p]);
                assert(s[p].0 == k);
            }
            assert(t.subrange(0, s.len() as int) =~= r.subrange(0, s.len() as int));
        } else {
            assert(t.subrange(0, s.len() as int) =~= r.subrange(0, s.len() as int));
        }
    }
}

/// A daemon that registers under a new id with tools of new names, and then
/// disconnects, leaves the daemon and tool tables as they were.
pub proof fn lemma_register_then_disconnect_leaves_no_trace<D>(
    tools: Seq<(Seq<char>, ToolRecord)>,
    daemons: Seq<(Seq<char>, D)>,
    request: RegisterRequest,
    channel: D,
)
    requires
        unique_keys(daemons),
        tables_consistent(tools, daemons),
        !has_key(daemons, request.daemon_id@),
        forall|j: int|
            0 <= j < request.tools@.len() ==> !has_key(tools, #[trigger] request.tools@[j].name@),
    ensures
        delete(upsert(daemons, request.daemon_id@, channel), request.daemon_id@) == daemons,
        register_tools(tools, request.daemon_id, request.tools@).filter(
            not_owned_by(request.daemon_id@),
        ) == tools,
{
    let id = request.daemon_id;
    lemma_finished_request_leaves_no_trace(daemons, id@, channel);
    lemma_register_fresh_shape(tools, id, request.tools@);
    let r = register_tools(tools, id, request.tools@);
    let p = not_owned_by(id@);
    let tail = r.subrange(tools.len() as int, r.len() as int);
    assert(r =~= tools + tail);
    assert forall|i: int| 0 <= i < tools.len() implies p(#[trigger] tools[i]) by {
        assert(has_key(daemons, tools[i].1.daemon_id@));
        if tools[i].1.daemon_id@ == id@ {
            assert(has_key(daemons, id@));
        }
    }
    assert forall|i: int| 0 <= i < tail.len() implies !p(#[trigger] tail[i]) by {
        assert(tail[i] == r[tools.len() + i]);
    }
    lemma_filter_keeps_all(tools, p);
    lemma_filter_keeps_none(tail, p);
    Seq::filter_distributes_over_add(tools, tail, p);
    assert(tools.filter(p) + tail.filter(p) =~= tools);
}

/// After a daemon registers a list of tools, the name of each tool that no
/// later tool of the list shares leads to exactly that tool, as announced,
/// owned by the daemon: its description and schema are its own.
pub proof fn lemma_registered_tool_keeps_its_info(
    s: Seq<(Seq<char>, ToolRecord)>,
    daemon_id: String,
    tools: Seq<ToolInfo>,
    j: int,
)
    requires
        unique_keys(s),
        0 <= j < tools.len(),
        forall|k: int| j < k < tools.len() ==> #[trigger] tools[k].name@ != tools[j].name@,
    ensures
        lookup(register_tools(s, daemon_id, tools), tools[j].name@) == Some(
            ToolRecord { daemon_id, info: tools[j] },
        ),
    decreases tools.len(),
{
    let init = tools.drop_last();
    let last = tools.last();
    lemma_registered_tools_route(s, daemon_id, init, last.name@);
    let r = register_tools(s, daemon_id, init);
    let rec = ToolRecord { daemon_id, info: last };
    lemma_lookup_upsert(r, last.name@, rec);
    if j < tools.len() - 1 {
        assert(tools[tools.len() - 1].name@ != tools[j].name@);
        assert forall|k: int| j < k < init.len() implies #[trigger] init[k].name@ != init[j].name@ by {
            assert(init[k] == tools[k]);
        }
        lemma_registered_tool_keeps_its_info(s, daemon_id, init, j);
        assert(init[j] == tools[j]);
    }
}

/// How many entries of `s` belong to daemon `id`.
pub open spec fn owned_count(s: Seq<(Seq<char>, ToolRecord)>, id: Seq<char>) -> nat
    decreases s.len(),
{
    if s.len() == 0 {
        0
    } else {
        owned_count(s.drop_last(), id) + if s.last().1.daemon_id@ == id {
            1nat
        } else {
            0nat
        }
    }
}

/// Some entry of `s` is a tool named `name` of daemon `id`.
pub open spec fn is_tool_of(s: Seq<(Seq<char>, ToolRecord)>, id: Seq<char>, name: Seq<char>) -> bool {
    exists|j: int| 0 <= j < s.len() && s[j].1.daemon_id@ == id && #[trigger] s[j].1.info.name@ == name
}

/// The tools listed for a daemon are the tools whose daemon id equals its
/// id, no others: every listed name is the name of such an entry, every
/// such entry's name is listed, and there are as many names as entries.
pub proof fn lemma_daemon_tool_names(s: Seq<(Seq<char>, ToolRecord)>, id: Seq<char>)
    ensures
        forall|i: int|
            0 <= i < tool_names_of(s, id).len() ==> is_tool_of(s, id, #[trigger] tool_names_of(s, id)[i]),
        forall|j: int|
            0 <= j < s.len() && #[trigger] s[j].1.daemon_id@ == id ==> tool_names_of(
                s,
                id,
            ).contains(s[j].1.info.name@),
        tool_names_of(s, id).len() == owned_count(s, id),
    decreases s.len(),
{
    reveal(Seq::filter);
    if s.len() > 0 {
        let d = s.drop_last();
        let x = s.last();
        lemma_daemon_tool_names(d, id);
        let nd = tool_names_of(d, id);
        let ns = tool_names_of(s, id);
        let owned = x.1.daemon_id@ == id;
        assert(owned_by(id)(x) == owned);
        if owned {
            assert(s.filter(owned_by(id)) == d.filter(owned_by(id)).push(x));
            assert(ns =~= nd.push(x.1.info.name@));
        } else {
            assert(s.filter(owned_by(id)) == d.filter(owned_by(id)));
            assert(ns =~= nd);
        }
        assert forall|i: int| 0 <= i < ns.len() implies is_tool_of(s, id, #[trigger] ns[i]) by {
            if i < nd.len() {
                assert(ns[i] == nd[i]);
                assert(is_tool_of(d, id, nd[i]));
                let j = choose|j: int|
                    0 <= j < d.len() && d[j].1.daemon_id@ == id && #[trigger] d[j].1.info.name@
                        == nd[i];
                assert(s[j] == d[j]);
                assert(s[j].1.info.name@ == ns[i]);
            } else {
                assert(s[s.len() - 1] == x);
                assert(s[s.len() - 1].1.info.name@ == ns[i]);
            }
        }
        assert forall|j: int| 0 <= j < s.len() && #[trigger] s[j].1.daemon_id@ == id implies ns.contains(
            s[j].1.info.name@,
        ) by {
            if j < d.len() {
                assert(s[j] == d[j]);
                assert(d[j].1.daemon_id@ == id);
                assert(nd.contains(d[j].1.info.name@));
                let k = choose|k: int| 0 <= k < nd.len() && nd[k] == d[j].1.info.name@;
                assert(ns[k] == nd[k]);
            } else {
                assert(ns[ns.len() - 1] == x.1.info.name@);
            }
        }
    }
}

/// A daemon's successful answer is the call's result in full when its text
/// is JSON, whatever its length; otherwise the result is an empty object.
pub proof fn lemma_json_result_kept_whole(resp: CallToolResponse, result_parses: bool)
    requires
        resp.success,
    ensures
        call_failure(ReplyOutcome::Replied(resp)) is None,
        result_parses ==> reply_text(resp.result_json@, result_parses) == resp.result_json@,
        !result_parses ==> reply_text(resp.result_json@, result_parses) == "{}"@,
{
}

/// A call can be routed exactly when the tool is registered and the daemon
/// that offers it is connected; an unknown tool is refused as not found, a
/// known tool with no connected daemon as disconnected, naming that daemon.
/// In consistent tables every registered tool can be routed.
pub proof fn lemma_call_routing<D>(
    tools: Seq<(Seq<char>, ToolRecord)>,
    daemons: Seq<(Seq<char>, D)>,
    name: String,
)
    ensures
        call_routable(tools, daemons, name@) <==> (has_key(tools, name@) && has_key(
            daemons,
            tools[key_position(tools, name@)].1.daemon_id@,
        )),
        !has_key(tools, name@) ==> call_route_error(tools, name) == RegistryError::ToolNotFound(
            name,
        ),
        has_key(tools, name@) ==> call_route_error(tools, name) == RegistryError::DaemonDisconnected(
            tools[key_position(tools, name@)].1.daemon_id,
        ),
        tables_consistent(tools, daemons) ==> (call_routable(tools, daemons, name@) <==> has_key(
            tools,
            name@,
        )),
{
    if has_key(tools, name@) {
        let p = key_position(tools, name@);
        assert(tools[p].0 == name@);
        if tables_consistent(tools, daemons) {
            assert(has_key(daemons, tools[p].1.daemon_id@));
        }
    }
}

/// A call request carries the request id, the tool's name and the
/// arguments, each in its own field; a start request likewise carries the
/// request id, server name, command, arguments and environment.
pub proof fn lemma_request_messages_carry_their_fields(
    request_id: String,
    tool_name: String,
    arguments_json: String,
    server_name: String,
    command: String,
    args: Vec<String>,
    env: HashMap<String, String>,
)
    ensures
        call_message(request_id, tool_name, arguments_json).payload matches Some(
            GatewayPayload::CallRequest(req),
        ) && req.request_id == request_id && req.tool_name == tool_name && req.arguments_json
            == arguments_json,
        start_message(request_id, server_name, command, args, env).payload matches Some(
            GatewayPayload::StartServer(req),
        ) && req.request_id == request_id && req.server_name == server_name && req.command
            == command && req.args == args && req.env == env,
{
}

/// The text of an error that carries a detail (a tool name, daemon id, or a
/// message) holds that detail, after a fixed lead-in.
pub proof fn lemma_error_text_holds_its_detail(e: RegistryError)
    ensures
        match e {
            RegistryError::ToolNotFound(t) => error_text(e).subrange(5, 5 + t@.len() as int) == t@,
            RegistryError::DaemonDisconnected(d) => error_text(e).subrange(7, 7 + d@.len() as int) == d@,
            RegistryError::CallSendFailed(m) => error_text(e).subrange(
                error_text(e).len() - m@.len(),
                error_text(e).len() as int,
            ) == m@,
            RegistryError::ToolFailed(m) => error_text(e).subrange(
                error_text(e).len() - m@.len(),
                error_text(e).len() as int,
            ) == m@,
            RegistryError::StartSendFailed(m) => error_text(e).subrange(
                error_text(e).len() - m@.len(),
                error_text(e).len() as int,
            ) == m@,
            RegistryError::StartFailed(m) => error_text(e).subrange(
                error_text(e).len() - m@.len(),
                error_text(e).len() as int,
            ) == m@,
            RegistryError::Grpc(m) => error_text(e).subrange(
                error_text(e).len() - m@.len(),
                error_text(e).len() as int,
            ) == m@,
            _ => true,
        },
{
    reveal_strlit("Tool ");
    reveal_strlit("Daemon ");
    match e {
        RegistryError::ToolNotFound(t) => {
            assert(error_text(e).subrange(5, 5 + t@.len() as int) =~= t@);
        },
        RegistryError::DaemonDisconnected(d) => {
            assert(error_text(e).subrange(7, 7 + d@.len() as int) =~= d@);
        },
        RegistryError::CallSendFailed(m) => {
            assert(error_text(e).subrange(error_text(e).len() - m@.len(), error_text(e).len() as int) =~= m@);
        },
        RegistryError::ToolFailed(m) => {
            assert(error_text(e).subrange(error_text(e).len() - m@.len(), error_text(e).len() as int) =~= m@);
        },
        RegistryError::StartSendFailed(m) => {
            assert(error_text(e).subrange(error_text(e).len() - m@.len(), error_text(e).len() as int) =~= m@);
        },
        RegistryError::StartFailed(m) => {
            assert(error_text(e).subrange(error_text(e).len() - m@.len(), error_text(e).len() as int) =~= m@);
        },
        RegistryError::Grpc(m) => {
            assert(error_text(e).subrange(error_text(e).len() - m@.len(), error_text(e).len() as int) =~= m@);
        },
        _ => {},
    }
}

/// A listed tool carries the registered tool's own name, description and
/// daemon, and its schema exactly when the schema text is JSON.
pub proof fn lemma_listing_carries_the_tool(rec: ToolRecord, schema_parses: bool)
    ensures
        listing_of(rec, schema_parses).name@ == rec.info.name@,
        listing_of(rec, schema_parses).description@ == rec.info.description@,
        listing_of(rec, schema_parses).daemon_id@ == rec.daemon_id@,
        listing_of(rec, schema_parses).input_schema_json is Some <==> schema_parses,
        listing_of(rec, schema_parses).input_schema_json matches Some(t) ==> t@
            == rec.info.input_schema_json@,
{
}

/// A tool call fails exactly when waiting did not end in a successful
/// answer; a refused call reports the daemon's own message, and a stream
/// error reports the stream's status.
pub proof fn lemma_call_failure_reasons(outcome: ReplyOutcome<CallToolResponse>)
    ensures
        call_failure(outcome) is None <==> (outcome matches ReplyOutcome::Replied(r) && r.success),
        outcome matches ReplyOutcome::Replied(r) ==> (!r.success ==> call_failure(outcome) == Some(
            RegistryError::ToolFailed(r.error_message),
        )),
        outcome matches ReplyOutcome::Failed(st) ==> call_failure(outcome) == Some(
            RegistryError::Grpc(st),
        ),
        outcome is ChannelClosed ==> call_failure(outcome) == Some(RegistryError::ChannelClosed),
        outcome is TimedOut ==> call_failure(outcome) == Some(RegistryError::Timeout),
{
}

/// A start request succeeds exactly when the daemon answers with success; a
/// refusal reports the daemon's own message.
pub proof fn lemma_start_result_reasons(outcome: ReplyOutcome<StartServerResponse>)
    ensures
        start_result(outcome) is Ok <==> (outcome matches ReplyOutcome::Replied(r) && r.success),
        outcome matches ReplyOutcome::Replied(r) ==> (!r.success ==> start_result(outcome) == Err::<
            (),
            RegistryError,
        >(RegistryError::StartFailed(r.message))),
        outcome matches ReplyOutcome::Failed(st) ==> start_result(outcome) == Err::<
            (),
            RegistryError,
        >(RegistryError::Grpc(st)),
        outcome is ChannelClosed ==> start_result(outcome) == Err::<(), RegistryError>(
            RegistryError::ChannelClosed,
        ),
        outcome is TimedOut ==> start_result(outcome) == Err::<(), RegistryError>(
            RegistryError::Timeout,
        ),
{
}

/// After a daemon is disconnected it is not connected, none of the tools
/// that remain belongs to it, every tool of another daemon remains, and every
/// other daemon stays connected with its channel.
pub proof fn lemma_disconnected_daemon_forgotten<D>(
    tools: Seq<(Seq<char>, ToolRecord)>,
    daemons: Seq<(Seq<char>, D)>,
    daemon_id: Seq<char>,
)
    requires
        unique_keys(daemons),
    ensures
        !has_key(delete(daemons, daemon_id), daemon_id),
        forall|i: int|
            0 <= i < tools.filter(not_owned_by(daemon_id)).len() ==> (#[trigger] tools.filter(
                not_owned_by(daemon_id),
            )[i]).1.daemon_id@ != daemon_id,
        forall|i: int|
            0 <= i < tools.len() && (#[trigger] tools[i]).1.daemon_id@ != daemon_id ==> tools.filter(
                not_owned_by(daemon_id),
            ).contains(tools[i]),
        forall|k: Seq<char>|
            k != daemon_id ==> lookup(#[trigger] delete(daemons, daemon_id), k) == lookup(daemons, k),
{
    assert forall|i: int|
        0 <= i < tools.len() && (#[trigger] tools[i]).1.daemon_id@ != daemon_id implies tools.filter(
        not_owned_by(daemon_id),
    ).contains(tools[i]) by {
        tools.lemma_filter_contains(not_owned_by(daemon_id), i);
    }
    lemma_delete_unique(daemons, daemon_id);
    assert forall|i: int| 0 <= i < tools.filter(not_owned_by(daemon_id)).len() implies (
    #[trigger] tools.filter(not_owned_by(daemon_id))[i]).1.daemon_id@ != daemon_id by {
        tools.lemma_filter_pred(not_owned_by(daemon_id), i);
    }
}

/// An answer is handed to its waiter at most once: once taken, the request
/// id has no waiter.
pub proof fn lemma_waiter_taken_once<V>(s: Seq<(Seq<char>, V)>, request_id: Seq<char>)
    requires
        unique_keys(s),
    ensures
        lookup(delete(s, request_id), request_id) is None,
{
    lemma_delete_unique(s, request_id);
    lemma_lookup_has_key(delete(s, request_id), request_id);
}

/// A request begun under a fresh id and then finished leaves the table of
/// waiters as it was.
pub proof fn lemma_finished_request_leaves_no_trace<V>(
    s: Seq<(Seq<char>, V)>,
    request_id: Seq<char>,
    waiter: V,
)
    requires
        unique_keys(s),
        !has_key(s, request_id),
    ensures
        delete(upsert(s, request_id, waiter), request_id) == s,
{
    let t = upsert(s, request_id, waiter);
    assert(t == s.push((request_id, waiter)));
    lemma_upsert_unique(s, request_id, waiter);
    lemma_key_position(t, request_id, s.len() as int);
    assert(t.remove(s.len() as int) =~= s);
}

/// Why a registry operation failed.
#[derive(Debug)]
pub enum RegistryError {
    ToolNotFound(String),
    DaemonDisconnected(String),
    CallSendFailed(String),
    ToolFailed(String),
    StartSendFailed(String),
    StartFailed(String),
    Grpc(String),
    ChannelClosed,
    Timeout,
}

/// The text of an error.
pub open spec fn error_text(e: RegistryError) -> Seq<char> {
    match e {
        RegistryError::ToolNotFound(t) => "Tool "@ + t@ + " not found"@,
        RegistryError::DaemonDisconnected(d) => "Daemon "@ + d@ + " disconnected"@,
        RegistryError::CallSendFailed(m) => "Failed to send request to daemon: "@ + m@,
        RegistryError::ToolFailed(m) => "Tool execution failed: "@ + m@,
        RegistryError::StartSendFailed(m) => "Failed to send StartServer: "@ + m@,
        RegistryError::StartFailed(m) => "Server start failed: "@ + m@,
        RegistryError::Grpc(m) => "gRPC error: "@ + m@,
        RegistryError::ChannelClosed => "Internal channel closed"@,
        RegistryError::Timeout => "Timeout waiting for daemon response"@,
    }
}

impl RegistryError {
    /// The message that reports this error.
    pub fn message(&self) -> (s: String)
        ensures
            s@ == error_text(*self),
    {
        match self {
            RegistryError::ToolNotFound(t) => join3("Tool ", t.as_str(), " not found"),
            RegistryError::DaemonDisconnected(d) => join3("Daemon ", d.as_str(), " disconnected"),
            RegistryError::CallSendFailed(m) => join2(
                "Failed to send request to daemon: ",
                m.as_str(),
            ),
            RegistryError::ToolFailed(m) => join2("Tool execution failed: ", m.as_str()),
            RegistryError::StartSendFailed(m) => join2("Failed to send StartServer: ", m.as_str()),
            RegistryError::StartFailed(m) => join2("Server start failed: ", m.as_str()),
            RegistryError::Grpc(m) => join2("gRPC error: ", m.as_str()),
            RegistryError::ChannelClosed => String::from_str("Internal channel closed"),
            RegistryError::Timeout => String::from_str("Timeout waiting for daemon response"),
        }
    }
}

/// How waiting for a daemon's answer ended.
#[derive(Debug)]
pub enum ReplyOutcome<R> {
    /// The daemon answered.
    Replied(R),
    /// The stream reported an error status, given as text.
    Failed(String),
    /// The waiting channel closed without an answer.
    ChannelClosed,
    /// No answer came in time.
    TimedOut,
}

/// The error a tool call ends with, if it fails.
pub open spec fn call_failure(outcome: ReplyOutcome<CallToolResponse>) -> Option<RegistryError> {
    match outcome {
        ReplyOutcome::Replied(resp) => if resp.success {
            None
        } else {
            Some(RegistryError::ToolFailed(resp.error_message))
        },
        ReplyOutcome::Failed(status) => Some(RegistryError::Grpc(status)),
        ReplyOutcome::ChannelClosed => Some(RegistryError::ChannelClosed),
        ReplyOutcome::TimedOut => Some(RegistryError::Timeout),
    }
}

/// The JSON text a successful call answers with: the daemon's result when it
/// is JSON, else an empty object.
pub open spec fn reply_text(result_json: Seq<char>, result_parses: bool) -> Seq<char> {
    if result_parses {
        result_json
    } else {
        "{}"@
    }
}

/// What a start-server request ends with.
pub open spec fn start_result(outcome: ReplyOutcome<StartServerResponse>) -> Result<(), RegistryError> {
    match outcome {
        ReplyOutcome::Replied(resp) => if resp.success {
            Ok(())
        } else {
            Err(RegistryError::StartFailed(resp.message))
        },
        ReplyOutcome::Failed(status) => Err(RegistryError::Grpc(status)),
        ReplyOutcome::ChannelClosed => Err(RegistryError::ChannelClosed),
        ReplyOutcome::TimedOut => Err(RegistryError::Timeout),
    }
}

/// The answer to a tool call, given whether the daemon's result text is JSON.
pub fn call_reply(outcome: ReplyOutcome<CallToolResponse>, result_parses: bool) -> (r: Result<
    String,
    RegistryError,
>)
    ensures
        r is Ok <==> call_failure(outcome) is None,
        r matches Err(e) ==> call_failure(outcome) == Some(e),
        r matches Ok(text) ==> outcome matches ReplyOutcome::Replied(resp) && text@ == reply_text(
            resp.result_json@,
            result_parses,
        ),
{
    match outcome {
        ReplyOutcome::Replied(resp) => {
            if resp.success {
                if result_parses {
                    Ok(resp.result_json)
                } else {
                    Ok(String::from_str("{}"))
                }
            } else {
                Err(RegistryError::ToolFailed(resp.error_message))
            }
        },
        ReplyOutcome::Failed(status) => Err(RegistryError::Grpc(status)),
        ReplyOutcome::ChannelClosed => Err(RegistryError::ChannelClosed),
        ReplyOutcome::TimedOut => Err(RegistryError::Timeout),
    }
}

/// The answer to a start-server request.
pub fn start_reply(outcome: ReplyOutcome<StartServerResponse>) -> (r: Result<(), RegistryError>)
    ensures
        r == start_result(outcome),
{
    match outcome {
        ReplyOutcome::Replied(resp) => {
            if resp.success {
                Ok(())
            } else {
                Err(RegistryError::StartFailed(resp.message))
            }
        },
        ReplyOutcome::Failed(status) => Err(RegistryError::Grpc(status)),
        ReplyOutcome::ChannelClosed => Err(RegistryError::ChannelClosed),
        ReplyOutcome::TimedOut => Err(RegistryError::Timeout),
    }
}

/// One tool as the gateway lists it.
#[derive(Debug)]
pub struct ToolListing {
    pub name: String,
    pub description: String,
    pub daemon_id: String,
    /// The input schema, present when its text is JSON.
    pub input_schema_json: Option<String>,
}

/// The listing of a registered tool, given whether its schema text is JSON.
pub open spec fn listing_of(rec: ToolRecord, schema_parses: bool) -> ToolListing {
    ToolListing {
        name: rec.info.name,
        description: rec.info.description,
        daemon_id: rec.daemon_id,
        input_schema_json: if schema_parses {
            Some(rec.info.input_schema_json)
        } else {
            None
        },
    }
}

impl ToolListing {
    /// Lists a registered tool, given whether its schema text is JSON.
    pub fn from_record(rec: &ToolRecord, schema_parses: bool) -> (l: ToolListing)
        ensures
            l == listing_of(*rec, schema_parses),
    {
        ToolListing {
            name: rec.info.name.clone(),
            description: rec.info.description.clone(),
            daemon_id: rec.daemon_id.clone(),
            input_schema_json: if schema_parses {
                Some(rec.info.input_schema_json.clone())
            } else {
                None
            },
        }
    }
}

/// One connected daemon as the gateway lists it.
#[derive(Debug)]
pub struct DaemonSummary {
    pub id: String,
    pub status: String,
    pub tools_count: usize,
    pub tools: Vec<String>,
}

/// A request ready to go to a daemon.
#[derive(Debug)]
pub struct Outbound<D> {
    /// The id under which the answer is awaited.
    pub request_id: String,
    /// The daemon's channel.
    pub channel: D,
    /// The message to send on it.
    pub message: GatewayMessage,
}

/// A call for `name` can be routed: the tool is registered and its daemon
/// is connected.
pub open spec fn call_routable<D>(
    tools: Seq<(Seq<char>, ToolRecord)>,
    daemons: Seq<(Seq<char>, D)>,
    name: Seq<char>,
) -> bool {
    has_key(tools, name) && has_key(daemons, lookup(tools, name)->0.daemon_id@)
}

/// Why a call for `name` cannot be routed: the tool is unknown, or else its
/// daemon is not connected.
pub open spec fn call_route_error(tools: Seq<(Seq<char>, ToolRecord)>, name: String) -> RegistryError {
    if has_key(tools, name@) {
        RegistryError::DaemonDisconnected(lookup(tools, name@)->0.daemon_id)
    } else {
        RegistryError::ToolNotFound(name)
    }
}

/// The message that asks a daemon to run a tool.
pub open spec fn call_message(
    request_id: String,
    tool_name: String,
    arguments_json: String,
) -> GatewayMessage {
    GatewayMessage {
        payload: Some(
            GatewayPayload::CallRequest(CallToolRequest { request_id, tool_name, arguments_json }),
        ),
    }
}

/// The message that asks a daemon to start a server process.
pub open spec fn start_message(
    request_id: String,
    server_name: String,
    command: String,
    args: Vec<String>,
    env: HashMap<String, String>,
) -> GatewayMessage {
    GatewayMessage {
        payload: Some(
            GatewayPayload::StartServer(
                StartServerRequest { request_id, server_name, command, args, env },
            ),
        ),
    }
}

/// The gateway's acknowledgement of a registration.
pub open spec fn is_registration_ack(m: GatewayMessage) -> bool {
    m.payload matches Some(GatewayPayload::RegisterAck(a)) && a.success && a.message@
        == "Registered successfully"@
}

/// The state of one daemon's stream: the id it registered under, if any.
#[derive(Debug)]
pub struct DaemonSession {
    pub daemon_id: Option<String>,
}

/// What the transport does after a daemon's message is handled.
#[derive(Debug)]
pub enum DaemonAction<C, S> {
    /// Send this message back to the daemon.
    Reply(GatewayMessage),
    /// Hand this answer to the waiter of a tool call.
    DeliverCall(C, CallToolResponse),
    /// Hand this answer to the waiter of a start request.
    DeliverStart(S, StartServerResponse),
    /// An answer came for a call nobody waits for; its request id.
    UnknownCallResponse(String),
    /// An answer came for a start nobody waits for; its request id.
    UnknownStartResponse(String),
    /// Nothing to do.
    Ignore,
}

/// A lowercase hexadecimal digit.
pub open spec fn is_lower_hex(c: char) -> bool {
    ('0' <= c && c <= '9') || ('a' <= c && c <= 'f')
}

/// The text of a random (version 4) UUID in hyphenated lowercase form:
/// 36 characters, hyphens at positions 8, 13, 18 and 23, lowercase hex
/// digits elsewhere, the version digit `4` at position 14, and one of
/// `8`, `9`, `a`, `b` (the variant) at position 19.
pub open spec fn is_v4_uuid_text(s: Seq<char>) -> bool {
    &&& s.len() == 36
    &&& forall|i: int|
        0 <= i < 36 ==> if i == 8 || i == 13 || i == 18 || i == 23 {
            #[trigger] s[i] == '-'
        } else {
            is_lower_hex(s[i])
        }
    &&& s[14] == '4'
    &&& (s[19] == '8' || s[19] == '9' || s[19] == 'a' || s[19] == 'b')
}

/// Calls `uuid::Uuid::new_v4` and renders the id with `Display`, which
/// writes the hyphenated lowercase form. The id is random; what every
/// outcome has in common is its form.
#[verifier::external_body]
fn fresh_request_id() -> (id: String)
    ensures
        is_v4_uuid_text(id@),
{
    uuid::Uuid::new_v4().to_string()
}

/// The registry of daemons, their tools, and waiting requests.
pub struct ToolRegistry<D, C, S> {
    tools: KeyedList<ToolRecord>,
    daemons: KeyedList<D>,
    pending_calls: KeyedList<C>,
    pending_starts: KeyedList<S>,
}

impl<D, C, S> ToolRegistry<D, C, S> {
    /// Registered tools by name, in registration order.
    pub closed spec fn tool_table(&self) -> Seq<(Seq<char>, ToolRecord)> {
        self.tools@
    }

    /// Connected daemons by id, with their channels.
    pub closed spec fn daemon_table(&self) -> Seq<(Seq<char>, D)> {
        self.daemons@
    }

    /// Tool calls that wait for an answer, by request id.
    pub closed spec fn call_table(&self) -> Seq<(Seq<char>, C)> {
        self.pending_calls@
    }

    /// Start requests that wait for an answer, by request id.
    pub closed spec fn start_table(&self) -> Seq<(Seq<char>, S)> {
        self.pending_starts@
    }

    /// Every table has unique keys.
    pub open spec fn tables_unique(&self) -> bool {
        &&& unique_keys(self.tool_table())
        &&& unique_keys(self.daemon_table())
        &&& unique_keys(self.call_table())
        &&& unique_keys(self.start_table())
    }

    proof fn lemma_unique(&self)
        requires
            self.tables_unique(),
        ensures
            self.tools.wf(),
            self.daemons.wf(),
            self.pending_calls.wf(),
            self.pending_starts.wf(),
    {
    }

    /// Every table has unique keys, and every tool is stored under its name
    /// and belongs to a connected daemon.
    pub open spec fn wf(&self) -> bool {
        &&& unique_keys(self.tool_table())
        &&& unique_keys(self.daemon_table())
        &&& unique_keys(self.call_table())
        &&& unique_keys(self.start_table())
        &&& tables_consistent(self.tool_table(), self.daemon_table())
    }

    proof fn lemma_wf(&self)
        requires
            self.wf(),
        ensures
            self.tools.wf(),
            self.daemons.wf(),
            self.pending_calls.wf(),
            self.pending_starts.wf(),
    {
    }

    /// An empty registry.
    pub fn new() -> (r: Self)
        ensures
            r.wf(),
            r.tool_table() == Seq::<(Seq<char>, ToolRecord)>::empty(),
            r.daemon_table() == Seq::<(Seq<char>, D)>::empty(),
            r.call_table() == Seq::<(Seq<char>, C)>::empty(),
            r.start_table() == Seq::<(Seq<char>, S)>::empty(),
    {
        ToolRegistry {
            tools: KeyedList::new(),
            daemons: KeyedList::new(),
            pending_calls: KeyedList::new(),
            pending_starts: KeyedList::new(),
        }
    }

    /// Gives up a tool call whose request could not be sent: its waiter is
    /// forgotten, and the send error is reported.
    pub fn abandon_call(&mut self, request_id: &String, send_error: String) -> (e: RegistryError)
        requires
            old(self).wf(),
        ensures
            final(self).wf(),
            final(self).tool_table() == old(self).tool_table(),
            final(self).daemon_table() == old(self).daemon_table(),
            final(self).call_table() == delete(old(self).call_table(), request_id@),
            final(self).start_table() == old(self).start_table(),
            e == RegistryError::CallSendFailed(send_error),
    {
        proof {
            self.lemma_wf();
            lemma_delete_unique(self.pending_calls@, request_id@);
        }
        self.pending_calls.remove(request_id);
        RegistryError::CallSendFailed(send_error)
    }

    /// Ends a tool call once waiting for it ended: its waiter is forgotten,
    /// and the daemon's answer becomes the call's result.
    pub fn finish_call(&mut self, request_id: &String, outcome: ReplyOutcome<CallToolResponse>) -> (r:
        Result<String, RegistryError>)
        requires
            old(self).wf(),
        ensures
            final(self).wf(),
            final(self).tool_table() == old(self).tool_table(),
            final(self).daemon_table() == old(self).daemon_table(),
            final(self).call_table() == delete(old(self).call_table(), request_id@),
            final(self).start_table() == old(self).start_table(),
            r is Ok <==> call_failure(outcome) is None,
            r matches Err(e) ==> call_failure(outcome) == Some(e),
            r matches Ok(text) ==> outcome matches ReplyOutcome::Replied(resp) && text@ == reply_text(
                resp.result_json@,
                json_text_parses(resp.result_json@),
            ),
    {
        proof {
            self.lemma_wf();
            lemma_delete_unique(self.pending_calls@, request_id@);
        }
        self.pending_calls.remove(request_id);
        let parses = match &outcome {
            ReplyOutcome::Replied(resp) => parses_as_json(&resp.result_json),
            _ => false,
        };
        call_reply(outcome, parses)
    }

    /// Ends a start-server request once waiting for it ended: its waiter is
    /// forgotten, and the daemon's answer becomes the result.
    pub fn finish_start(&mut self, request_id: &String, outcome: ReplyOutcome<StartServerResponse>) -> (r:
        Result<(), RegistryError>)
        requires
            old(self).wf(),
        ensures
            final(self).wf(),
            final(self).tool_table() == old(self).tool_table(),
            final(self).daemon_table() == old(self).daemon_table(),
            final(self).call_table() == old(self).call_table(),
            final(self).start_table() == delete(old(self).start_table(), request_id@),
            r == start_result(outcome),
    {
        proof {
            self.lemma_wf();
            lemma_delete_unique(self.pending_starts@, request_id@);
        }
        self.pending_starts.remove(request_id);
        start_reply(outcome)
    }

    /// Takes the waiter of a tool call, if the call is still awaited.
    pub fn take_pending_call(&mut self, request_id: &String) -> (r: Option<C>)
        requires
            old(self).wf(),
        ensures
            final(self).wf(),
            final(self).tool_table() == old(self).tool_table(),
            final(self).daemon_table() == old(self).daemon_table(),
            final(self).call_table() == delete(old(self).call_table(), request_id@),
            final(self).start_table() == old(self).start_table(),
            r == lookup(old(self).call_table(), request_id@),
    {
        proof {
            self.lemma_wf();
            lemma_delete_unique(self.pending_calls@, request_id@);
        }
        self.pending_calls.remove(request_id)
    }

    /// Takes the waiter of a start-server request, if it is still awaited.
    pub fn take_pending_start(&mut self, request_id: &String) -> (r: Option<S>)
        requires
            old(self).wf(),
        ensures
            final(self).wf(),
            final(self).tool_table() == old(self).tool_table(),
            final(self).daemon_table() == old(self).daemon_table(),
            final(self).call_table() == old(self).call_table(),
            final(self).start_table() == delete(old(self).start_table(), request_id@),
            r == lookup(old(self).start_table(), request_id@),
    {
        proof {
            self.lemma_wf();
            lemma_delete_unique(self.pending_starts@, request_id@);
        }
        self.pending_starts.remove(request_id)
    }

    /// Handles one message of a daemon's stream. A registration records the
    /// daemon (with `channel`, the way back to it) and its tools, and is
    /// acknowledged; an answer is handed to its waiter, or reported as
    /// unknown when nobody waits for it.
    pub fn handle_daemon_message(
        &mut self,
        session: &mut DaemonSession,
        message: DaemonMessage,
        channel: D,
    ) -> (r: DaemonAction<C, S>)
        requires
            old(self).wf(),
        ensures
            final(self).wf(),
            match message.payload {
                Some(DaemonPayload::Register(req)) => {
                    &&& final(session).daemon_id == Some(req.daemon_id)
                    &&& final(self).daemon_table() == upsert(
                        old(self).daemon_table(),
                        req.daemon_id@,
                        channel,
                    )
                    &&& final(self).tool_table() == register_tools(
                        old(self).tool_table(),
                        req.daemon_id,
                        req.tools@,
                    )
                    &&& final(self).call_table() == old(self).call_table()
                    &&& final(self).start_table() == old(self).start_table()
                    &&& r matches DaemonAction::Reply(m) && is_registration_ack(m)
                },
                Some(DaemonPayload::CallResponse(resp)) => {
                    &&& *final(session) == *old(session)
                    &&& final(self).tool_table() == old(self).tool_table()
                    &&& final(self).daemon_table() == old(self).daemon_table()
                    &&& final(self).call_table() == delete(old(self).call_table(), resp.request_id@)
                    &&& final(self).start_table() == old(self).start_table()
                    &&& r == match lookup(old(self).call_table(), resp.request_id@) {
                        Some(waiter) => DaemonAction::<C, S>::DeliverCall(waiter, resp),
                        None => DaemonAction::<C, S>::UnknownCallResponse(resp.request_id),
                    }
                },
                Some(DaemonPayload::StartServerResponse(resp)) => {
                    &&& *final(session) == *old(session)
                    &&& final(self).tool_table() == old(self).tool_table()
                    &&& final(self).daemon_table() == old(self).daemon_table()
                    &&& final(self).call_table() == old(self).call_table()
                    &&& final(self).start_table() == delete(old(self).start_table(), resp.request_id@)
                    &&& r == match lookup(old(self).start_table(), resp.request_id@) {
                        Some(waiter) => DaemonAction::<C, S>::DeliverStart(waiter, resp),
                        None => DaemonAction::<C, S>::UnknownStartResponse(resp.request_id),
                    }
                },
                None => {
                    &&& *final(session) == *old(session)
                    &&& final(self).tool_table() == old(self).tool_table()
                    &&& final(self).daemon_table() == old(self).daemon_table()
                    &&& final(self).call_table() == old(self).call_table()
                    &&& final(self).start_table() == old(self).start_table()
                    &&& r == DaemonAction::<C, S>::Ignore
                },
            },
    {
        match message.payload {
            Some(DaemonPayload::Register(req)) => {
                session.daemon_id = Some(req.daemon_id.clone());
                let ack = self.register_daemon(req, channel);
                DaemonAction::Reply(ack)
            },
            Some(DaemonPayload::CallResponse(resp)) => {
                match self.take_pending_call(&resp.request_id) {
                    Some(waiter) => DaemonAction::DeliverCall(waiter, resp),
                    None => DaemonAction::UnknownCallResponse(resp.request_id),
                }
            },
            Some(DaemonPayload::StartServerResponse(resp)) => {
                match self.take_pending_start(&resp.request_id) {
                    Some(waiter) => DaemonAction::DeliverStart(waiter, resp),
                    None => DaemonAction::UnknownStartResponse(resp.request_id),
                }
            },
            None => DaemonAction::Ignore,
        }
    }

    /// Ends a daemon's stream: a daemon that registered on it is disconnected.
    pub fn end_session(&mut self, session: DaemonSession)
        requires
            old(self).wf(),
        ensures
            final(self).wf(),
            final(self).call_table() == old(self).call_table(),
            final(self).start_table() == old(self).start_table(),
            match session.daemon_id {
                Some(id) => {
                    &&& final(self).daemon_table() == delete(old(self).daemon_table(), id@)
                    &&& final(self).tool_table() == old(self).tool_table().filter(
                        not_owned_by(id@),
                    )
                },
                None => {
                    &&& final(self).daemon_table() == old(self).daemon_table()
                    &&& final(self).tool_table() == old(self).tool_table()
                },
            },
    {
        if let Some(id) = session.daemon_id {
            self.disconnect_daemon(&id);
        }
    }

    /// Lists every registered tool, in table order; a tool's schema is listed
    /// when its text is JSON.
    pub fn get_all_tools(&self) -> (r: Vec<ToolListing>)
        requires
            self.wf(),
        ensures
            r@.len() == self.tool_table().len(),
            forall|i: int|
                0 <= i < r@.len() ==> #[trigger] r@[i] == listing_of(
                    self.tool_table()[i].1,
                    json_text_parses(self.tool_table()[i].1.info.input_schema_json@),
                ),
    {
        let mut res: Vec<ToolListing> = Vec::new();
        let n = self.tools.len();
        for i in 0..n
            invariant
                n == self.tool_table().len(),
                res@.len() == i,
                forall|j: int|
                    0 <= j < i ==> #[trigger] res@[j] == listing_of(
                        self.tool_table()[j].1,
                        json_text_parses(self.tool_table()[j].1.info.input_schema_json@),
                    ),
        {
            let rec = self.tools.value_at(i);
            let parses = parses_as_json(&rec.info.input_schema_json);
            res.push(ToolListing::from_record(rec, parses));
        }
        res
    }

    /// The names of the tools of one daemon, in table order.
    fn tool_names_for(&self, daemon_id: &String) -> (names: Vec<String>)
        requires
            self.wf(),
        ensures
            views(names@) == tool_names_of(self.tool_table(), daemon_id@),
    {
        let ghost t = self.tool_table();
        let ghost p = owned_by(daemon_id@);
        let mut names: Vec<String> = Vec::new();
        let n = self.tools.len();
        proof {
            reveal(Seq::filter);
            assert(t.take(0) =~= Seq::<(Seq<char>, ToolRecord)>::empty());
            assert(views(names@) =~= tool_names_of(t.take(0), daemon_id@));
        }
        for i in 0..n
            invariant
                n == t.len(),
                t == self.tool_table(),
                p == owned_by(daemon_id@),
                views(names@) == tool_names_of(t.take(i as int), daemon_id@),
        {
            let rec = self.tools.value_at(i);
            proof {
                lemma_filter_take_step(t, p, i as int);
            }
            let ghost before = names@;
            let ghost f = t.take(i as int).filter(p);
            assert(*rec == t[i as int].1);
            if rec.daemon_id == *daemon_id {
                names.push(rec.info.name.clone());
                assert(p(t[i as int]));
                assert(t.take(i + 1).filter(p) == f.push(t[i as int]));
                assert(views(names@) =~= views(before).push(rec.info.name@));
            } else {
                assert(!p(t[i as int]));
                assert(t.take(i + 1).filter(p) == f);
            }
            assert(views(names@) =~= tool_names_of(t.take(i + 1), daemon_id@));
        }
        assert(t.take(n as int) =~= t);
        names
    }

    /// Lists every connected daemon, in table order, with the names of its tools.
    pub fn get_all_daemons(&self) -> (r: Vec<DaemonSummary>)
        requires
            self.wf(),
        ensures
            r@.len() == self.daemon_table().len(),
            forall|i: int|
                0 <= i < r@.len() ==> {
                    &&& (#[trigger] r@[i]).id@ == self.daemon_table()[i].0
                    &&& r@[i].status@ == "connected"@
                    &&& views(r@[i].tools@) == tool_names_of(
                        self.tool_table(),
                        self.daemon_table()[i].0,
                    )
                    &&& r@[i].tools_count == r@[i].tools@.len()
                },
    {
        let mut res: Vec<DaemonSummary> = Vec::new();
        let n = self.daemons.len();
        for i in 0..n
            invariant
                self.wf(),
                n == self.daemon_table().len(),
                res@.len() == i,
                forall|j: int|
                    0 <= j < i ==> {
                        &&& (#[trigger] res@[j]).id@ == self.daemon_table()[j].0
                        &&& res@[j].status@ == "connected"@
                        &&& views(res@[j].tools@) == tool_names_of(
                            self.tool_table(),
                            self.daemon_table()[j].0,
                        )
                        &&& res@[j].tools_count == res@[j].tools@.len()
                    },
        {
            let id = self.daemons.key_at(i);
            let tools = self.tool_names_for(id);
            let summary = DaemonSummary {
                id: id.clone(),
                status: String::from_str("connected"),
                tools_count: tools.len(),
                tools,
            };
            res.push(summary);
        }
        res
    }

    /// Forgets a daemon whose stream ended: its channel, and every tool it offered.
    pub fn disconnect_daemon(&mut self, daemon_id: &String)
        requires
            old(self).wf(),
        ensures
            final(self).wf(),
            final(self).daemon_table() == delete(old(self).daemon_table(), daemon_id@),
            final(self).tool_table() == old(self).tool_table().filter(not_owned_by(daemon_id@)),
            final(self).call_table() == old(self).call_table(),
            final(self).start_table() == old(self).start_table(),
    {
        proof {
            self.lemma_wf();
            lemma_delete_unique(self.daemons@, daemon_id@);
        }
        let ghost t0 = self.tools@;
        let ghost p = not_owned_by(daemon_id@);
        self.daemons.remove(daemon_id);
        let mut taken: KeyedList<ToolRecord> = KeyedList::new();
        std::mem::swap(&mut taken, &mut self.tools);
        let mut rest = taken.into_entries();
        let ghost mut k: int = 0;
        proof {
            assert(t0.take(0) =~= Seq::<(Seq<char>, ToolRecord)>::empty());
            reveal(Seq::filter);
            assert(t0.take(0).filter(p) =~= Seq::<(Seq<char>, ToolRecord)>::empty());
            assert(entries_view(rest@) =~= t0.skip(0));
        }
        while rest.len() > 0
            invariant
                0 <= k <= t0.len(),
                unique_keys(t0),
                p == not_owned_by(daemon_id@),
                entries_view(rest@) == t0.skip(k),
                self.tools.wf(),
                self.tools@ == t0.take(k).filter(p),
                self.daemons@ == delete(old(self).daemons@, daemon_id@),
                self.pending_calls@ == old(self).pending_calls@,
                self.pending_starts@ == old(self).pending_starts@,
            decreases rest.len(),
        {
            let ghost before = self.tools@;
            let ghost r0 = rest@;
            proof {
                assert(entries_view(r0).len() == r0.len());
                assert(t0.skip(k).len() > 0);
                assert(t0.skip(k)[0] == t0[k]);
                assert(entries_view(r0)[0] == (r0[0].0@, r0[0].1));
            }
            let (name, rec) = rest.remove(0);
            proof {
                assert(r0[0] == (name, rec));
                assert((name@, rec) == t0[k]);
                assert(rest@ == r0.skip(1));
                assert forall|i: int| 0 <= i < rest@.len() implies entries_view(rest@)[i] == t0.skip(
                    k + 1,
                )[i] by {
                    assert(entries_view(r0)[i + 1] == t0.skip(k)[i + 1]);
                }
                assert(entries_view(rest@) =~= t0.skip(k + 1));
                lemma_filter_take_step(t0, p, k);
            }
            if rec.daemon_id != *daemon_id {
                proof {
                    lemma_filter_subset(t0.take(k), p);
                    if has_key(before, name@) {
                        let j = key_position(before, name@);
                        assert(before[j].0 == name@);
                        let m = choose|m: int| 0 <= m < t0.take(k).len() && t0.take(k)[m] == before[j];
                        assert(t0[m].0 == t0[k].0);
                    }
                }
                self.tools.push_fresh(name, rec);
            }
            proof {
                k = k + 1;
            }
        }
        proof {
            assert(t0.take(k) =~= t0);
            lemma_filter_subset(t0, p);
            let t = self.tools@;
            assert forall|i: int| 0 <= i < t.len() implies has_key(
                self.daemons@,
                #[trigger] t[i].1.daemon_id@,
            ) && t[i].0 == t[i].1.info.name@ by {
                let m = choose|m: int| 0 <= m < t0.len() && t0[m] == t[i];
                assert(has_key(old(self).daemons@, t0[m].1.daemon_id@));
                reveal(Seq::filter);
                t0.lemma_filter_pred(p, i);
                assert(t[i].1.daemon_id@ != daemon_id@);
                lemma_lookup_has_key(old(self).daemons@, t[i].1.daemon_id@);
                lemma_lookup_has_key(self.daemons@, t[i].1.daemon_id@);
            }
        }
    }

    /// Records a daemon's registration: its channel under its id, then each of
    /// its tools under the tool's name. Answers with the acknowledgement.
    pub fn register_daemon(&mut self, request: RegisterRequest, channel: D) -> (ack: GatewayMessage)
        requires
            old(self).wf(),
        ensures
            final(self).wf(),
            final(self).daemon_table() == upsert(old(self).daemon_table(), request.daemon_id@, channel),
            final(self).tool_table() == register_tools(
                old(self).tool_table(),
                request.daemon_id,
                request.tools@,
            ),
            final(self).call_table() == old(self).call_table(),
            final(self).start_table() == old(self).start_table(),
            is_registration_ack(ack),
    {
        proof {
            self.lemma_wf();
            lemma_upsert_entries(self.daemons@, request.daemon_id@, channel);
        }
        let RegisterRequest { daemon_id, tools } = request;
        let ghost all = tools@;
        let ghost tools0 = self.tools@;
        let ghost daemons0 = self.daemons@;
        self.daemons.insert(daemon_id.clone(), channel);
        let mut rest = tools;
        let ghost mut k: int = 0;
        proof {
            assert(all.take(0) =~= Seq::<ToolInfo>::empty());
            assert(rest@ =~= all.skip(0));
        }
        while rest.len() > 0
            invariant
                0 <= k <= all.len(),
                rest@ == all.skip(k),
                self.tools.wf(),
                self.daemons.wf(),
                self.tools@ == register_tools(tools0, daemon_id, all.take(k)),
                has_key(self.daemons@, daemon_id@),
                tables_consistent(self.tools@, self.daemons@),
                self.daemons@ == upsert(daemons0, daemon_id@, channel),
                self.pending_calls@ == old(self).pending_calls@,
                self.pending_starts@ == old(self).pending_starts@,
                unique_keys(self.pending_calls@),
                unique_keys(self.pending_starts@),
            decreases rest.len(),
        {
            let tool = rest.remove(0);
            proof {
                assert(tool == all[k]);
                assert(all.take(k + 1).drop_last() =~= all.take(k));
                assert(all.take(k + 1).last() == all[k]);
                assert(rest@ =~= all.skip(k + 1));
            }
            let ghost before = self.tools@;
            let ghost rec = ToolRecord { daemon_id: daemon_id, info: tool };
            let name = tool.name.clone();
            self.tools.insert(name, ToolRecord { daemon_id: daemon_id.clone(), info: tool });
            proof {
                lemma_upsert_entries(before, rec.info.name@, rec);
                assert forall|i: int| 0 <= i < self.tools@.len() implies has_key(
                    self.daemons@,
                    #[trigger] self.tools@[i].1.daemon_id@,
                ) && self.tools@[i].0 == self.tools@[i].1.info.name@ by {
                    if self.tools@[i] != (rec.info.name@, rec) {
                        assert(i < before.len() && self.tools@[i] == before[i]);
                        assert(has_key(self.daemons@, before[i].1.daemon_id@));
                    } else {
                        assert(rec.daemon_id@ == daemon_id@);
                    }
                }
                k = k + 1;
            }
        }
        proof {
            assert(all.take(k) =~= all);
        }
        proof {
            reveal_strlit("Registered successfully");
        }
        GatewayMessage {
            payload: Some(
                GatewayPayload::RegisterAck(
                    RegisterResponse {
                        success: true,
                        message: String::from_str("Registered successfully"),
                    },
                ),
            ),
        }
    }
}

impl<D: Clone, C, S> ToolRegistry<D, C, S> {
    /// The channel of a connected daemon, copied.
    fn daemon_channel(&self, daemon_id: &String) -> (r: Option<D>)
        requires
            self.tables_unique(),
        ensures
            r is Some <==> has_key(self.daemon_table(), daemon_id@),
            r matches Some(ch) ==> cloned(lookup(self.daemon_table(), daemon_id@)->0, ch),
    {
        proof {
            self.lemma_unique();
            lemma_lookup_has_key(self.daemons@, daemon_id@);
        }
        match self.daemons.get(daemon_id) {
            Some(ch) => Some(ch.clone()),
            None => None,
        }
    }

    /// Prepares a tool call under the given request id: finds the daemon that
    /// offers the tool, and records `reply` as the waiter for the answer.
    ///
    /// A tool whose daemon is not connected is refused as disconnected. The
    /// registry is changed only as a whole, so in a well-formed registry every
    /// tool's daemon is connected and that refusal cannot happen; the contract
    /// still states it for any registry whose tables have unique keys.
    pub fn begin_call_with_id(
        &mut self,
        tool_name: String,
        arguments_json: String,
        request_id: String,
        reply: C,
    ) -> (r: Result<Outbound<D>, RegistryError>)
        requires
            old(self).tables_unique(),
        ensures
            final(self).tables_unique(),
            old(self).wf() ==> final(self).wf(),
            final(self).tool_table() == old(self).tool_table(),
            final(self).daemon_table() == old(self).daemon_table(),
            final(self).start_table() == old(self).start_table(),
            r is Ok <==> call_routable(old(self).tool_table(), old(self).daemon_table(), tool_name@),
            old(self).wf() ==> (r is Ok <==> has_key(old(self).tool_table(), tool_name@)),
            r matches Err(e) ==> e == call_route_error(old(self).tool_table(), tool_name) && final(self).call_table() == old(self).call_table(),
            r matches Ok(out) ==> {
                let rec = lookup(old(self).tool_table(), tool_name@)->0;
                &&& out.request_id == request_id
                &&& out.message == call_message(request_id, tool_name, arguments_json)
                &&& cloned(lookup(old(self).daemon_table(), rec.daemon_id@)->0, out.channel)
                &&& final(self).call_table() == upsert(old(self).call_table(), request_id@, reply)
            },
    {
        proof {
            self.lemma_unique();
            lemma_lookup_has_key(self.tools@, tool_name@);
            lemma_upsert_unique(self.pending_calls@, request_id@, reply);
            if self.wf() && has_key(self.tools@, tool_name@) {
                let p = key_position(self.tools@, tool_name@);
                assert(has_key(self.daemons@, self.tools@[p].1.daemon_id@));
            }
        }
        let daemon_id = match self.tools.get(&tool_name) {
            Some(rec) => rec.daemon_id.clone(),
            None => {
                return Err(RegistryError::ToolNotFound(tool_name));
            },
        };
        let channel = match self.daemon_channel(&daemon_id) {
            Some(ch) => ch,
            None => {
                return Err(RegistryError::DaemonDisconnected(daemon_id));
            },
        };
        self.pending_calls.insert(request_id.clone(), reply);
        let message = GatewayMessage {
            payload: Some(
                GatewayPayload::CallRequest(
                    CallToolRequest { request_id: request_id.clone(), tool_name, arguments_json },
                ),
            ),
        };
        Ok(Outbound { request_id, channel, message })
    }

    /// Prepares a tool call under a fresh random request id; see
    /// `begin_call_with_id`.
    pub fn begin_call(&mut self, tool_name: String, arguments_json: String, reply: C) -> (r: Result<
        Outbound<D>,
        RegistryError,
    >)
        requires
            old(self).tables_unique(),
        ensures
            final(self).tables_unique(),
            old(self).wf() ==> final(self).wf(),
            final(self).tool_table() == old(self).tool_table(),
            final(self).daemon_table() == old(self).daemon_table(),
            final(self).start_table() == old(self).start_table(),
            r is Ok <==> call_routable(old(self).tool_table(), old(self).daemon_table(), tool_name@),
            old(self).wf() ==> (r is Ok <==> has_key(old(self).tool_table(), tool_name@)),
            r matches Err(e) ==> e == call_route_error(old(self).tool_table(), tool_name) && final(self).call_table() == old(self).call_table(),
            r matches Ok(out) ==> {
                let rec = lookup(old(self).tool_table(), tool_name@)->0;
                &&& is_v4_uuid_text(out.request_id@)
                &&& out.message == call_message(out.request_id, tool_name, arguments_json)
                &&& cloned(lookup(old(self).daemon_table(), rec.daemon_id@)->0, out.channel)
                &&& final(self).call_table() == upsert(
                    old(self).call_table(),
                    out.request_id@,
                    reply,
                )
            },
    {
        let request_id = fresh_request_id();
        self.begin_call_with_id(tool_name, arguments_json, request_id, reply)
    }

    /// Prepares a start-server request under the given request id for a
    /// connected daemon, and records `reply` as the waiter for the answer.
    pub fn begin_start_with_id(
        &mut self,
        daemon_id: String,
        server_name: String,
        command: String,
        args: Vec<String>,
        env: HashMap<String, String>,
        request_id: String,
        reply: S,
    ) -> (r: Result<Outbound<D>, RegistryError>)
        requires
            old(self).wf(),
        ensures
            final(self).wf(),
            final(self).tool_table() == old(self).tool_table(),
            final(self).daemon_table() == old(self).daemon_table(),
            final(self).call_table() == old(self).call_table(),
            r is Ok <==> has_key(old(self).daemon_table(), daemon_id@),
            r matches Err(e) ==> e == RegistryError::DaemonDisconnected(daemon_id) && final(self).start_table() == old(self).start_table(),
            r matches Ok(out) ==> {
                &&& out.request_id == request_id
                &&& out.message == start_message(request_id, server_name, command, args, env)
                &&& cloned(lookup(old(self).daemon_table(), daemon_id@)->0, out.channel)
                &&& final(self).start_table() == upsert(
                    old(self).start_table(),
                    request_id@,
                    reply,
                )
            },
    {
        proof {
            self.lemma_wf();
            lemma_upsert_unique(self.pending_starts@, request_id@, reply);
        }
        let channel = match self.daemon_channel(&daemon_id) {
            Some(ch) => ch,
            None => {
                return Err(RegistryError::DaemonDisconnected(daemon_id));
            },
        };
        self.pending_starts.insert(request_id.clone(), reply);
        let message = GatewayMessage {
            payload: Some(
                GatewayPayload::StartServer(
                    StartServerRequest {
                        request_id: request_id.clone(),
                        server_name,
                        command,
                        args,
                        env,
                    },
                ),
            ),
        };
        Ok(Outbound { request_id, channel, message })
    }

    /// Prepares a start-server request under a fresh random request id; see
    /// `begin_start_with_id`.
    pub fn begin_start(
        &mut self,
        daemon_id: String,
        server_name: String,
        command: String,
        args: Vec<String>,
        env: HashMap<String, String>,
        reply: S,
    ) -> (r: Result<Outbound<D>, RegistryError>)
        requires
            old(self).wf(),
        ensures
            final(self).wf(),
            final(self).tool_table() == old(self).tool_table(),
            final(self).daemon_table() == old(self).daemon_table(),
            final(self).call_table() == old(self).call_table(),
            r is Ok <==> has_key(old(self).daemon_table(), daemon_id@),
            r matches Err(e) ==> e == RegistryError::DaemonDisconnected(daemon_id) && final(self).start_table() == old(self).start_table(),
            r matches Ok(out) ==> {
                &&& is_v4_uuid_text(out.request_id@)
                &&& out.message == start_message(out.request_id, server_name, command, args, env)
                &&& cloned(lookup(old(self).daemon_table(), daemon_id@)->0, out.channel)
                &&& final(self).start_table() == upsert(
                    old(self).start_table(),
                    out.request_id@,
                    reply,
                )
            },
    {
        let request_id = fresh_request_id();
        self.begin_start_with_id(daemon_id, server_name, command, args, env, request_id, reply)
    }
}

} // verus!
