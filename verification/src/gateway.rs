//! The gateway's decisions on HTTP requests: who the caller is, and whether
//! the caller may call a tool.
use vstd::prelude::*;
use crate::config::AuthConfig;
use crate::json::{json_value_text, value_to_json_text};
use crate::text::{join2, list_contains, views};

verus! {

/// What a bearer token grants.
#[derive(Debug, Clone)]
pub struct Claims {
    pub sub: String,
    pub scopes: Vec<String>,
    pub exp: usize,
}

/// The scope that grants every tool.
pub open spec fn wildcard_scope() -> Seq<char> {
    "tool:*"@
}

/// The scope that grants the tool named `tool`.
pub open spec fn scope_for(tool: Seq<char>) -> Seq<char> {
    "tool:"@ + tool
}

/// `scopes` grant calling the tool named `tool`: they hold its own scope or
/// the wildcard scope.
pub open spec fn grants(scopes: Seq<Seq<char>>, tool: Seq<char>) -> bool {
    scopes.contains(scope_for(tool)) || scopes.contains(wildcard_scope())
}

/// The claims of a caller when authentication is off.
pub open spec fn is_anonymous(c: Claims) -> bool {
    &&& c.sub@ == "anonymous"@
    &&& views(c.scopes@) == seq![wildcard_scope()]
    &&& c.exp == 0
}

/// The scope a caller needs to call the tool named `tool_name`.
pub fn required_scope(tool_name: &String) -> (s: String)
    ensures
        s@ == scope_for(tool_name@),
{
    join2("tool:", tool_name.as_str())
}

impl Claims {
    /// The claims given to every caller when authentication is off: subject
    /// `anonymous`, the wildcard scope alone, no expiry.
    pub fn anonymous() -> (c: Claims)
        ensures
            is_anonymous(c),
    {
        let scopes = vec![String::from_str("tool:*")];
        let c = Claims { sub: String::from_str("anonymous"), scopes, exp: 0 };
        assert(views(c.scopes@) =~= seq![wildcard_scope()]);
        c
    }

    /// Whether these claims grant calling the tool named `tool_name`.
    pub fn may_call_tool(&self, tool_name: &String) -> (b: bool)
        ensures
            b == grants(views(self.scopes@), tool_name@),
    {
        let wanted = required_scope(tool_name);
        let wildcard = String::from_str("tool:*");
        list_contains(&self.scopes, &wanted) || list_contains(&self.scopes, &wildcard)
    }
}


/// A prefix can be taken off again: equal texts after the same prefix are equal.
proof fn lemma_prefix_cancel(p: Seq<char>, a: Seq<char>, b: Seq<char>)
    requires
        p + a == p + b,
    ensures
        a == b,
{
    assert((p + a).subrange(p.len() as int, (p + a).len() as int) =~= a);
    assert((p + b).subrange(p.len() as int, (p + b).len() as int) =~= b);
}

/// Any one of the caller's scopes that names the tool, or is the wildcard,
/// grants the call, wherever it stands in the list.
pub proof fn lemma_any_matching_scope_grants(scopes: Seq<Seq<char>>, tool: Seq<char>, i: int)
    requires
        0 <= i < scopes.len(),
        scopes[i] == "tool:"@ + tool || scopes[i] == "tool:*"@,
    ensures
        grants(scopes, tool),
{
    assert(scopes[i] == scopes[i]);
}

/// A call is granted only by a scope that names the tool or by the wildcard.
pub proof fn lemma_grant_comes_from_a_scope(scopes: Seq<Seq<char>>, tool: Seq<char>)
    requires
        grants(scopes, tool),
    ensures
        exists|i: int|
            0 <= i < scopes.len() && (#[trigger] scopes[i] == "tool:"@ + tool || scopes[i]
                == "tool:*"@),
{
    if scopes.contains(scope_for(tool)) {
        let i = choose|i: int| 0 <= i < scopes.len() && scopes[i] == scope_for(tool);
        assert(scopes[i] == "tool:"@ + tool);
    } else {
        let i = choose|i: int| 0 <= i < scopes.len() && scopes[i] == wildcard_scope();
        assert(scopes[i] == "tool:*"@);
    }
}

/// Adding scopes, before or after the others, never takes a grant away.
pub proof fn lemma_more_scopes_keep_grants(
    scopes: Seq<Seq<char>>,
    extra: Seq<Seq<char>>,
    tool: Seq<char>,
)
    requires
        grants(scopes, tool),
    ensures
        grants(scopes + extra, tool),
        grants(extra + scopes, tool),
{
    lemma_grant_comes_from_a_scope(scopes, tool);
    let i = choose|i: int|
        0 <= i < scopes.len() && (#[trigger] scopes[i] == "tool:"@ + tool || scopes[i]
            == "tool:*"@);
    assert((scopes + extra)[i] == scopes[i]);
    lemma_any_matching_scope_grants(scopes + extra, tool, i);
    assert((extra + scopes)[extra.len() + i] == scopes[i]);
    lemma_any_matching_scope_grants(extra + scopes, tool, extra.len() + i);
}

/// The claims of an unauthenticated caller grant every tool.
pub proof fn lemma_anonymous_may_call_every_tool(c: Claims, tool: Seq<char>)
    requires
        is_anonymous(c),
    ensures
        grants(views(c.scopes@), tool),
{
    assert(views(c.scopes@)[0] == wildcard_scope());
}

/// The wildcard scope grants every tool.
pub proof fn lemma_wildcard_grants_every_tool(scopes: Seq<Seq<char>>, tool: Seq<char>)
    requires
        scopes.contains(wildcard_scope()),
    ensures
        grants(scopes, tool),
{
}

/// A tool's own scope, alone, grants that tool and no other, except that the
/// scope of a tool named `*` is the wildcard scope.
pub proof fn lemma_own_scope_grants_only_its_tool(granted: Seq<char>, tool: Seq<char>)
    ensures
        grants(seq![scope_for(granted)], tool) <==> (granted == tool || granted == "*"@),
{
    reveal_strlit("tool:");
    reveal_strlit("tool:*");
    reveal_strlit("*");
    let scopes = seq![scope_for(granted)];
    assert(wildcard_scope() =~= "tool:"@ + "*"@);
    if scopes.contains(scope_for(tool)) {
        assert(scopes[0] == scope_for(tool));
        lemma_prefix_cancel("tool:"@, granted, tool);
    }
    if scopes.contains(wildcard_scope()) {
        assert(scopes[0] == wildcard_scope());
        lemma_prefix_cancel("tool:"@, granted, "*"@);
    }
    if granted == tool {
        assert(scopes[0] == scope_for(tool));
    }
    if granted == "*"@ {
        assert(scopes[0] == wildcard_scope());
    }
}

/// The bearer prefix is exactly the seven characters `Bearer ` (capital `B`,
/// then a space), at the very start of the header.
pub proof fn lemma_bearer_prefix_is_exact(header: Seq<char>)
    ensures
        has_bearer_prefix(header) <==> (header.len() >= 7 && header[0] == 'B' && header[1] == 'e'
            && header[2] == 'a' && header[3] == 'r' && header[4] == 'e' && header[5] == 'r'
            && header[6] == ' '),
{
    reveal_strlit("Bearer ");
    if header.len() >= 7 {
        let p = header.subrange(0, 7);
        if header[0] == 'B' && header[1] == 'e' && header[2] == 'a' && header[3] == 'r'
            && header[4] == 'e' && header[5] == 'r' && header[6] == ' ' {
            assert(p =~= bearer_prefix());
        }
        if has_bearer_prefix(header) {
            assert(p[0] == bearer_prefix()[0]);
            assert(p[1] == bearer_prefix()[1]);
            assert(p[2] == bearer_prefix()[2]);
            assert(p[3] == bearer_prefix()[3]);
            assert(p[4] == bearer_prefix()[4]);
            assert(p[5] == bearer_prefix()[5]);
            assert(p[6] == bearer_prefix()[6]);
        }
    }
}

/// A header made of the bearer prefix and a token carries that token.
pub proof fn lemma_bearer_header_carries_token(token: Seq<char>)
    ensures
        has_bearer_prefix(bearer_prefix() + token),
        (bearer_prefix() + token).subrange(7, (bearer_prefix() + token).len() as int) == token,
{
    reveal_strlit("Bearer ");
    assert((bearer_prefix() + token).subrange(0, 7) =~= bearer_prefix());
    assert((bearer_prefix() + token).subrange(7, (bearer_prefix() + token).len() as int) =~= token);
}

/// The answer the gateway gives to a refused request.
#[derive(Debug, Clone, Copy, PartialEq, Eq)]
pub enum GatewayStatus {
    Unauthorized,
    Forbidden,
    InternalServerError,
}

impl GatewayStatus {
    /// The HTTP status code.
    pub fn code(&self) -> (c: u16)
        ensures
            c == match *self {
                GatewayStatus::Unauthorized => 401u16,
                GatewayStatus::Forbidden => 403u16,
                GatewayStatus::InternalServerError => 500u16,
            },
    {
        match self {
            GatewayStatus::Unauthorized => 401,
            GatewayStatus::Forbidden => 403,
            GatewayStatus::InternalServerError => 500,
        }
    }
}

/// The prefix of an `Authorization` header that carries a bearer token.
pub open spec fn bearer_prefix() -> Seq<char> {
    "Bearer "@
}

/// `header` starts with the bearer prefix.
pub open spec fn has_bearer_prefix(header: Seq<char>) -> bool {
    header.len() >= 7 && header.subrange(0, 7) == bearer_prefix()
}

/// The token of a bearer `Authorization` header: what follows the prefix.
pub fn bearer_token(header: &str) -> (r: Option<String>)
    ensures
        r is Some <==> has_bearer_prefix(header@),
        r matches Some(t) ==> t@ == header@.subrange(7, header@.len() as int),
{
    let prefix = "Bearer ";
    proof {
        reveal_strlit("Bearer ");
    }
    let n = header.unicode_len();
    if n < 7 {
        return None;
    }
    for i in 0..7
        invariant
            n == header@.len(),
            n >= 7,
            prefix@ == bearer_prefix(),
            prefix@.len() == 7,
            forall|j: int| 0 <= j < i ==> header@[j] == prefix@[j],
    {
        if header.get_char(i) != prefix.get_char(i) {
            assert(header@.subrange(0, 7)[i as int] != bearer_prefix()[i as int]);
            return None;
        }
    }
    assert(header@.subrange(0, 7) =~= bearer_prefix());
    Some(String::from_str(header.substring_char(7, n)))
}

/// What to do with a request, before any token is checked.
#[derive(Debug)]
pub enum AuthStep {
    /// Let the request through with these claims.
    Admit(Claims),
    /// Refuse the request.
    Reject(GatewayStatus),
    /// Check this bearer token; let the request through with its claims if
    /// it is valid, refuse it as unauthorized if not.
    Verify(String),
}

/// Decides how a request is authenticated, from the authentication settings
/// and the request's `Authorization` header, if it has a readable one.
pub fn authenticate(auth: &AuthConfig, authorization: Option<&str>) -> (r: AuthStep)
    ensures
        !auth.require_auth ==> (r matches AuthStep::Admit(c) && is_anonymous(c)),
        auth.require_auth ==> match authorization {
            Some(h) => if has_bearer_prefix(h@) {
                (r matches AuthStep::Verify(t) && t@ == h@.subrange(7, h@.len() as int))
            } else {
                r == AuthStep::Reject(GatewayStatus::Unauthorized)
            },
            None => r == AuthStep::Reject(GatewayStatus::Unauthorized),
        },
{
    if !auth.require_auth {
        return AuthStep::Admit(Claims::anonymous());
    }
    match authorization {
        Some(h) => match bearer_token(h) {
            Some(t) => AuthStep::Verify(t),
            None => AuthStep::Reject(GatewayStatus::Unauthorized),
        },
        None => AuthStep::Reject(GatewayStatus::Unauthorized),
    }
}

/// Ends authentication once a bearer token was checked: the claims of a
/// valid token let the request through; an invalid token is unauthorized.
pub fn finish_authentication(decoded: Option<Claims>) -> (r: Result<Claims, GatewayStatus>)
    ensures
        match decoded {
            Some(c) => r == Ok::<Claims, GatewayStatus>(c),
            None => r == Err::<Claims, GatewayStatus>(GatewayStatus::Unauthorized),
        },
{
    match decoded {
        Some(c) => Ok(c),
        None => Err(GatewayStatus::Unauthorized),
    }
}

/// The body of a tool call request.
#[derive(Debug)]
pub struct CallToolPayload {
    pub name: String,
    pub arguments: Option<serde_json::Value>,
}

/// The JSON text of a call's arguments, given what serializing them gave:
/// an empty object when there are none or they could not be written.
pub fn arguments_text(serialized: Option<Result<String, serde_json::Error>>) -> (s: String)
    ensures
        match serialized {
            Some(Ok(t)) => s == t,
            _ => s@ == "{}"@,
        },
{
    match serialized {
        Some(Ok(t)) => t,
        _ => String::from_str("{}"),
    }
}

impl CallToolPayload {
    /// The JSON text of the arguments; an empty object when there are none.
    pub fn arguments_json(&self) -> (s: String)
        ensures
            self.arguments is None ==> s@ == "{}"@,
            self.arguments matches Some(v) ==> s@ == json_value_text(v),
    {
        let serialized = match &self.arguments {
            Some(v) => Some(value_to_json_text(v)),
            None => None,
        };
        arguments_text(serialized)
    }
}

/// Decides a tool call request: a caller whose claims do not grant the tool
/// is refused as forbidden; otherwise the call goes ahead with the JSON text
/// of its arguments.
pub fn plan_tool_call(claims: &Claims, payload: &CallToolPayload) -> (r: Result<String, GatewayStatus>)
    ensures
        r is Ok <==> grants(views(claims.scopes@), payload.name@),
        r matches Err(e) ==> e == GatewayStatus::Forbidden,
        r matches Ok(args) ==> (payload.arguments is None ==> args@ == "{}"@),
        r matches Ok(args) ==> (payload.arguments matches Some(v) ==> args@ == json_value_text(v)),
{
    if !claims.may_call_tool(&payload.name) {
        return Err(GatewayStatus::Forbidden);
    }
    Ok(payload.arguments_json())
}

} // verus!
