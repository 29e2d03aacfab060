//! One endpoint of the gateway: the tools that it lists, and who may call them.
use vstd::prelude::*;
use vstd::string::StringExecFns;

use crate::config::{required_role, ServerConfig, ServerView};
use crate::outside::{
    attached_context, call_token, called_tool, called_tool_name, context_of, meta_token,
    progress_token, set_progress_token, with_token,
};
use crate::rancher_auth::{
    credentials, is_bound, law_roles_come_from_bindings, principal_ids, AuthContext, ContextView,
    FlowView, GlobalRoleBinding, RancherPrincipal,
};
use crate::text::same_text;
use crate::upstream::{ClientView, RpcRequest, UpstreamError, UpstreamMcpClient};

verus! {

/// Which error a call is answered with.
#[derive(Clone, Copy, Debug, PartialEq, Eq, Structural)]
pub enum CallErrorKind {
    /// The request is not one that is served.
    InvalidRequest,
    /// The caller is known, and may not make the call.
    Forbidden,
    /// The request could not be served.
    Internal,
}

impl CallErrorKind {
    /// The HTTP status that stands for the error, where one does. The other
    /// errors are those that JSON-RPC has of its own.
    pub fn status(self) -> (r: Option<u16>)
        ensures
            r == if self == CallErrorKind::Forbidden {
                Some(403u16)
            } else {
                None
            },
    {
        match self {
            CallErrorKind::Forbidden => Some(403),
            CallErrorKind::InvalidRequest => None,
            CallErrorKind::Internal => None,
        }
    }
}

/// What a call is answered with that has no result.
#[derive(Debug)]
pub struct CallError {
    pub kind: CallErrorKind,
    pub message: String,
}

/// An error and its message.
#[verifier::ext_equal]
pub struct CallErrorView {
    pub kind: CallErrorKind,
    pub message: Seq<char>,
}

impl View for CallError {
    type V = CallErrorView;

    open spec fn view(&self) -> CallErrorView {
        CallErrorView { kind: self.kind, message: self.message@ }
    }
}

/// The message to a caller without an identity.
pub open spec fn unauthenticated() -> CallErrorView {
    CallErrorView {
        kind: CallErrorKind::InvalidRequest,
        message: "Authentication required. Please provide R_token and R_url headers."@,
    }
}

/// The message to a caller of a tool that no rule applies to. A known caller is
/// forbidden the call, as with any other tool that the caller may not call.
pub open spec fn inaccessible(tool: Seq<char>, caller: Option<ContextView>) -> CallErrorView {
    CallErrorView {
        kind: if caller is Some {
            CallErrorKind::Forbidden
        } else {
            CallErrorKind::InvalidRequest
        },
        message: "Tool \""@ + tool + "\" is not accessible: no role rule matches it"@,
    }
}

/// The message to a caller without the role that a tool asks for.
pub open spec fn forbidden(user: Seq<char>, role: Seq<char>, tool: Seq<char>) -> CallErrorView {
    CallErrorView {
        kind: CallErrorKind::Forbidden,
        message: "Forbidden: user \""@ + user + "\" needs role \""@ + role + "\" to call \""@
            + tool + "\""@,
    }
}

/// Whether a caller may call a tool of a server: a rule has to apply to the
/// tool, and the caller has to be known and to hold the rule's role.
pub open spec fn authorization(
    server: ServerView,
    tool: Seq<char>,
    caller: Option<ContextView>,
) -> Result<(), CallErrorView> {
    match (required_role(server.rules, tool), caller) {
        (None, _) => Err(inaccessible(tool, caller)),
        (Some(_), None) => Err(unauthenticated()),
        (Some(role), Some(context)) => if context.roles.contains(role) {
            Ok(())
        } else {
            Err(forbidden(context.display_name, role, tool))
        },
    }
}

/// What a server tells of itself.
#[derive(Debug)]
pub struct ServerDetails {
    /// The version of the protocol that it speaks.
    pub protocol_version: &'static str,
    /// Whether it has tools.
    pub tools: bool,
    /// What the AI agent is told.
    pub instructions: Option<String>,
}

/// What the AI agent is told: the server's own instructions, or else where it
/// is and how to authenticate.
pub open spec fn instructions(server: ServerView) -> Seq<char> {
    match server.instructions {
        Some(text) => text,
        None => "MCP gateway endpoint for \""@ + server.name
            + "\". Provide R_token and R_url headers to authenticate."@,
    }
}

/// A tool call on its way to the upstream server.
pub struct ForwardedCall {
    /// The request to the upstream server.
    pub request: RpcRequest<rmcp::model::CallToolRequestParams>,
    /// Whether notifications are relayed to the caller.
    pub relay: bool,
}

/// What came of a call that was forwarded.
pub enum CallOutcome<R> {
    /// The upstream server answered, or failed to.
    Returned(Result<R, UpstreamError>),
    /// The caller gave the call up.
    Cancelled,
}

/// The parameters that go upstream: those of the caller, with the caller's
/// progress token set on them if there is one.
pub open spec fn forwarded_params(
    request: rmcp::model::CallToolRequestParams,
    meta: rmcp::model::Meta,
) -> rmcp::model::CallToolRequestParams {
    match meta_token(meta) {
        Some(token) => with_token(request, token),
        None => request,
    }
}

/// What an endpoint is.
#[verifier::ext_equal]
pub struct ProxyView {
    pub config: ServerView,
    pub tools: Seq<rmcp::model::Tool>,
    pub upstream: ClientView,
}

/// MCP server proxy for a single upstream.
///
/// Mounted at `/<name>/mcp`; routing between servers is by path, so that there
/// are no tool name collisions.
///
/// Each instance carries its own `ServerConfig` (rules and instructions), so
/// that different AI agents pointed at different endpoints can get different
/// behaviours.
pub struct ServerProxy {
    config: ServerConfig,
    cached_tools: Vec<rmcp::model::Tool>,
    upstream: UpstreamMcpClient,
}

impl View for ServerProxy {
    type V = ProxyView;

    closed spec fn view(&self) -> ProxyView {
        ProxyView {
            config: self.config@,
            tools: self.cached_tools@,
            upstream: self.upstream@,
        }
    }
}

fn authentication_required() -> (r: CallError)
    ensures
        r@ == unauthenticated(),
{
    CallError {
        kind: CallErrorKind::InvalidRequest,
        message: "Authentication required. Please provide R_token and R_url headers.".to_owned(),
    }
}

fn holds_role(context: &AuthContext, role: &str) -> (r: bool)
    ensures
        r == context@.roles.contains(role@),
{
    for i in 0..context.roles.len()
        invariant
            forall|k: int| 0 <= k < i ==> #[trigger] context@.roles[k] != role@,
    {
        assert(context@.roles[i as int] == context.roles@[i as int]@);
        if same_text(context.roles[i].as_str(), role) {
            return true;
        }
    }
    false
}

impl ServerProxy {
    /// The endpoint of a server whose tools were discovered.
    pub fn new(
        config: ServerConfig,
        upstream: UpstreamMcpClient,
        tools: Vec<rmcp::model::Tool>,
    ) -> (r: ServerProxy)
        ensures
            r@ == (ProxyView { config: config@, tools: tools@, upstream: upstream@ }),
    {
        ServerProxy { config, cached_tools: tools, upstream }
    }

    /// The configuration of the server.
    pub fn config(&self) -> (r: &ServerConfig)
        ensures
            r@ == self@.config,
    {
        &self.config
    }

    /// The client of the upstream server.
    pub fn upstream(&self) -> (r: &UpstreamMcpClient)
        ensures
            r@ == self@.upstream,
    {
        &self.upstream
    }

    /// Decides whether `caller` may call the tool.
    pub fn authorize_caller(&self, tool_name: &str, caller: Option<&AuthContext>) -> (r: Result<
        (),
        CallError,
    >)
        ensures
            ({
                let known = match caller {
                    Some(context) => Some(context@),
                    None => None,
                };
                match r {
                    Ok(()) => authorization(self@.config, tool_name@, known) is Ok,
                    Err(e) => authorization(self@.config, tool_name@, known) == Err::<(), _>(e@),
                }
            }),
    {
        let role = match self.config.required_role_for(tool_name) {
            Some(role) => role,
            None => {
                let mut message = "Tool \"".to_owned();
                message.append(tool_name);
                message.append("\" is not accessible: no role rule matches it");
                let kind = if caller.is_some() {
                    CallErrorKind::Forbidden
                } else {
                    CallErrorKind::InvalidRequest
                };
                return Err(CallError { kind, message });
            },
        };
        match caller {
            None => Err(authentication_required()),
            Some(context) => if holds_role(context, role) {
                Ok(())
            } else {
                let mut message = "Forbidden: user \"".to_owned();
                message.append(context.display_name.as_str());
                message.append("\" needs role \"");
                message.append(role);
                message.append("\" to call \"");
                message.append(tool_name);
                message.append("\"");
                Err(CallError { kind: CallErrorKind::Forbidden, message })
            },
        }
    }

    /// Decides whether the tool may be called by the sender of the HTTP request
    /// with this head.
    pub fn authorize(&self, tool_name: &str, parts: &http::request::Parts) -> (r: Result<
        (),
        CallError,
    >)
        ensures
            match r {
                Ok(()) => authorization(
                    self@.config,
                    tool_name@,
                    attached_context(*parts),
                ) is Ok,
                Err(e) => authorization(self@.config, tool_name@, attached_context(*parts))
                    == Err::<(), _>(e@),
            },
    {
        self.authorize_caller(tool_name, context_of(parts))
    }

    /// What the server tells of itself.
    pub fn get_info(&self) -> (r: ServerDetails)
        ensures
            r.protocol_version@ == "2024-11-05"@,
            r.tools,
            r.instructions matches Some(text) && text@ == instructions(self@.config),
    {
        let text = match &self.config.instructions {
            Some(text) => text.clone(),
            None => {
                let mut text = "MCP gateway endpoint for \"".to_owned();
                text.append(self.config.name.as_str());
                text.append("\". Provide R_token and R_url headers to authenticate.");
                text
            },
        };
        ServerDetails { protocol_version: "2024-11-05", tools: true, instructions: Some(text) }
    }

    /// Returns this server's tool list. Nobody has to authenticate for it.
    pub fn list_tools(&self) -> (r: &[rmcp::model::Tool])
        ensures
            r@ == self@.tools,
    {
        self.cached_tools.as_slice()
    }

    /// Enforces the role rules, and makes the request that forwards the call.
    /// `parts` is the head of the HTTP request that the call came with, and
    /// `meta` the metadata that came with the call.
    pub fn call_tool(
        &mut self,
        request: rmcp::model::CallToolRequestParams,
        parts: Option<&http::request::Parts>,
        meta: &rmcp::model::Meta,
    ) -> (r: Result<ForwardedCall, CallError>)
        ensures
            ({
                let allowed = match parts {
                    Some(head) => authorization(
                        old(self)@.config,
                        called_tool(request),
                        attached_context(*head),
                    ),
                    None => Err(unauthenticated()),
                };
                match r {
                    Ok(call) => {
                        &&& allowed is Ok
                        &&& call.request.jsonrpc@ == "2.0"@
                        &&& call.request.id == old(self)@.upstream.next_id
                        &&& call.request.method@ == "tools/call"@
                        &&& call.request.params == forwarded_params(request, *meta)
                        &&& called_tool(call.request.params) == called_tool(request)
                        &&& call.relay <==> meta_token(*meta) is Some
                        &&& call.relay ==> call_token(call.request.params) == meta_token(*meta)
                        &&& final(self)@ == (ProxyView {
                            upstream: old(self)@.upstream.after_request(),
                            ..old(self)@
                        })
                    },
                    Err(e) => {
                        &&& allowed == Err::<(), _>(e@)
                        &&& final(self)@ == old(self)@
                    },
                }
            }),
    {
        let head = match parts {
            Some(head) => head,
            None => {
                return Err(authentication_required());
            },
        };
        match self.authorize(called_tool_name(&request), head) {
            Ok(()) => {},
            Err(e) => {
                return Err(e);
            },
        }
        let mut params = request;
        let mut relay = false;
        if let Some(token) = progress_token(meta) {
            set_progress_token(&mut params, token);
            relay = true;
        }
        Ok(ForwardedCall { request: self.upstream.proxy_call(params), relay })
    }

    /// What the caller of a forwarded call gets.
    pub fn call_result<R>(outcome: CallOutcome<R>) -> (r: Result<R, CallError>)
        ensures
            match outcome {
                CallOutcome::Returned(Ok(result)) => r == Ok::<_, CallError>(result),
                CallOutcome::Returned(Err(error)) => r matches Err(e) && e@ == (CallErrorView {
                    kind: CallErrorKind::Internal,
                    message: error.text(),
                }),
                CallOutcome::Cancelled => r matches Err(e) && e@ == (CallErrorView {
                    kind: CallErrorKind::Internal,
                    message: "Call cancelled by client"@,
                }),
            },
    {
        match outcome {
            CallOutcome::Returned(Ok(result)) => Ok(result),
            CallOutcome::Returned(Err(error)) => Err(
                CallError { kind: CallErrorKind::Internal, message: error.message() },
            ),
            CallOutcome::Cancelled => Err(
                CallError {
                    kind: CallErrorKind::Internal,
                    message: "Call cancelled by client".to_owned(),
                },
            ),
        }
    }
}

/// A caller may call a tool exactly if a rule applies to it and the caller is
/// known to hold the role of the first such rule.
pub proof fn law_calls_need_the_role(
    server: ServerView,
    tool: Seq<char>,
    caller: Option<ContextView>,
)
    ensures
        authorization(server, tool, caller) is Ok <==> {
            &&& required_role(server.rules, tool) is Some
            &&& caller is Some
            &&& caller->0.roles.contains(required_role(server.rules, tool)->0)
        },
{
}

/// A tool that no rule applies to can be called by nobody, whatever roles they
/// hold; on a server without rules that is every tool.
pub proof fn law_no_rule_no_call(server: ServerView, tool: Seq<char>, caller: Option<ContextView>)
    requires
        required_role(server.rules, tool) is None || server.rules.len() == 0,
    ensures
        authorization(server, tool, caller) == Err::<(), _>(inaccessible(tool, caller)),
{
}

/// A known caller is either allowed a call or forbidden it: where the caller
/// does not hold the role that the call needs, the answer is a 403.
pub proof fn law_known_callers_are_forbidden(
    server: ServerView,
    tool: Seq<char>,
    caller: ContextView,
)
    ensures
        match authorization(server, tool, Some(caller)) {
            Ok(()) => caller.roles.contains(required_role(server.rules, tool)->0),
            Err(e) => e.kind == CallErrorKind::Forbidden,
        },
{
}

/// More roles never take a call away, and neither the caller's name nor the
/// order of the roles matters: who holds all the roles of a caller that may call
/// a tool may call it too.
pub proof fn law_more_roles_allow_no_less(
    server: ServerView,
    tool: Seq<char>,
    caller: ContextView,
    other: ContextView,
)
    requires
        authorization(server, tool, Some(caller)) is Ok,
        forall|role: Seq<char>|
            #[trigger] caller.roles.contains(role) ==> other.roles.contains(role),
    ensures
        authorization(server, tool, Some(other)) is Ok,
{
}

/// From the headers to the call: once the check of a request's credentials is
/// through, its sender may call a tool exactly if a rule applies to the tool,
/// and Rancher lists a binding of the rule's role that is bound to one of the
/// token's principals.
pub proof fn law_calls_need_a_binding(
    server: ServerView,
    tool: Seq<char>,
    fields: Map<Seq<char>, Seq<u8>>,
    principals: Seq<RancherPrincipal>,
    bindings: Seq<GlobalRoleBinding>,
)
    requires
        FlowView::start(fields).after_principals(Ok(principals)).after_bindings(Ok(bindings))
            is Attached,
    ensures
        ({
            let end = FlowView::start(fields).after_principals(Ok(principals)).after_bindings(
                Ok(bindings),
            );
            let ids = principal_ids(principals);
            authorization(server, tool, Some(end->Attached_0)) is Ok <==> {
                &&& required_role(server.rules, tool) is Some
                &&& exists|i: int|
                    0 <= i < bindings.len() && (#[trigger] bindings[i]).global_role_id@
                        == required_role(server.rules, tool)->0 && is_bound(bindings[i], ids)
            }
        }),
{
    let ids = principal_ids(principals);
    if let Some(role) = required_role(server.rules, tool) {
        law_roles_come_from_bindings(bindings, ids, role);
    }
}

/// A request without credentials can call no tool, though it is let through.
pub proof fn law_no_credentials_no_call(
    server: ServerView,
    tool: Seq<char>,
    fields: Map<Seq<char>, Seq<u8>>,
)
    requires
        credentials(fields) is None,
    ensures
        FlowView::start(fields) is PassThrough,
        authorization(server, tool, None) is Err,
{
}

/// Each refusal says why: the tool that no rule matches; the headers that are
/// missing; or the user, the role and the tool. That no rule matches comes first.
pub proof fn law_refusals_say_why(
    server: ServerView,
    tool: Seq<char>,
    caller: Option<ContextView>,
)
    ensures
        authorization(server, tool, caller) matches Err(e) ==> e.message == match (
            required_role(server.rules, tool),
            caller,
        ) {
            (None, _) => "Tool \""@ + tool + "\" is not accessible: no role rule matches it"@,
            (Some(_), None) =>
            "Authentication required. Please provide R_token and R_url headers."@,
            (Some(role), Some(context)) => "Forbidden: user \""@ + context.display_name
                + "\" needs role \""@ + role + "\" to call \""@ + tool + "\""@,
        },
        authorization(server, tool, None) matches Err(e) && e.kind == CallErrorKind::InvalidRequest,
        unauthenticated().kind == CallErrorKind::InvalidRequest,
        unauthenticated().message
            == "Authentication required. Please provide R_token and R_url headers."@,
{
}

/// Any one of a caller's roles will do, wherever it stands among them.
pub proof fn law_any_of_the_roles_will_do(
    server: ServerView,
    tool: Seq<char>,
    caller: ContextView,
    i: int,
)
    requires
        0 <= i < caller.roles.len(),
        required_role(server.rules, tool) == Some(caller.roles[i]),
    ensures
        authorization(server, tool, Some(caller)) is Ok,
{
    assert(caller.roles.contains(caller.roles[i]));
}

/// The rules of a server, and nothing else of it, decide who may call what.
pub proof fn law_only_the_rules_decide(
    server: ServerView,
    other: ServerView,
    tool: Seq<char>,
    caller: Option<ContextView>,
)
    requires
        server.rules == other.rules,
    ensures
        authorization(server, tool, caller) == authorization(other, tool, caller),
{
}

/// A server's own instructions are given as they are; without any, the text
/// names the server and the headers.
pub proof fn law_own_instructions_come_first(server: ServerView)
    ensures
        server.instructions matches Some(text) ==> instructions(server) == text,
        server.instructions is None ==> instructions(server) == "MCP gateway endpoint for \""@
            + server.name + "\". Provide R_token and R_url headers to authenticate."@,
{
}

/// A call goes upstream as it came; only the caller's progress token is set on
/// it, where there is one.
pub proof fn law_only_the_progress_token_is_added(
    request: rmcp::model::CallToolRequestParams,
    meta: rmcp::model::Meta,
    token: rmcp::model::ProgressToken,
)
    ensures
        meta_token(meta) is None ==> forwarded_params(request, meta) == request,
        meta_token(meta) == Some(token) ==> forwarded_params(request, meta) == with_token(
            request,
            token,
        ),
{
}

/// An error says what its fields hold.
pub proof fn law_error_says_what_it_holds(error: CallError)
    ensures
        error@.kind == error.kind,
        error@.message == error.message@,
{
}

} // verus!
