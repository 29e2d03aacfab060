//! The client side of an upstream MCP server: the requests that are sent, and
//! what is decided at each step of reading the answer.
use vstd::prelude::*;
use vstd::string::StringExecFns;

use crate::outside::{
    duration_text, header_fields, header_text, header_value, json_u64, log_params, progress_params,
    seconds_text, value_as_log, value_as_progress, value_as_u64, visible_text,
};
use crate::sse::{payload, SseReader, SseView};
use crate::status::{is_success, status_text, succeeded, written_status};
use crate::text::{
    decimal, decimal_text, joined, same_text, signed_decimal, signed_decimal_text, starts_with,
};

verus! {

/// Why a call to an upstream server failed.
#[derive(Debug)]
pub enum UpstreamError {
    /// No answer came within the idle timeout.
    NotResponding { url: String, idle_timeout_secs: u64 },
    /// The request could not be sent.
    Unreachable { url: String },
    /// The answer's status is not a success.
    Status { status: u16, text: String },
    /// The body of the answer did not come within the idle timeout.
    BodyTimedOut { url: String, idle_timeout_secs: u64 },
    /// The body of the answer could not be read.
    BodyUnreadable,
    /// The body of the answer is not a JSON-RPC response.
    BodyNotParsed,
    /// The server answered with a JSON-RPC error.
    Rpc { code: i32, message: String },
    /// The response has neither a result nor an error.
    NeitherResultNorError,
    /// The event stream could not be read.
    StreamUnreadable,
    /// Nothing came on the event stream within the idle timeout.
    StreamIdle { id: u64, idle_timeout_secs: u64 },
    /// The event stream ended before the response came.
    StreamEnded { id: u64 },
}

impl UpstreamError {
    /// The text of the error.
    pub open spec fn text(self) -> Seq<char> {
        match self {
            UpstreamError::NotResponding { url, idle_timeout_secs } => "upstream MCP at "@ + url@
                + " did not respond within "@ + duration_text(idle_timeout_secs),
            UpstreamError::Unreachable { url } => "upstream MCP unreachable at "@ + url@,
            UpstreamError::Status { status, text } => "upstream returned "@ + status_text(status)
                + ": "@ + text@,
            UpstreamError::BodyTimedOut { url, idle_timeout_secs } =>
            "upstream MCP response body from "@ + url@ + " timed out after "@ + duration_text(
                idle_timeout_secs,
            ),
            UpstreamError::BodyUnreadable => "failed to read upstream MCP response"@,
            UpstreamError::BodyNotParsed => "failed to parse upstream MCP response"@,
            UpstreamError::Rpc { code, message } => "upstream MCP error "@ + signed_decimal(
                code as int,
            ) + ": "@ + message@,
            UpstreamError::NeitherResultNorError =>
            "upstream MCP returned neither result nor error"@,
            UpstreamError::StreamUnreadable => "failed to read upstream SSE stream"@,
            UpstreamError::StreamIdle { id, idle_timeout_secs } =>
            "upstream SSE stream for request id "@ + decimal(id as nat)
                + " idle for longer than "@ + duration_text(idle_timeout_secs),
            UpstreamError::StreamEnded { id } =>
            "SSE stream ended without a JSON-RPC response for request id "@ + decimal(id as nat),
        }
    }

    /// The text of the error.
    pub fn message(&self) -> (r: String)
        ensures
            r@ == self.text(),
    {
        match self {
            UpstreamError::NotResponding { url, idle_timeout_secs } => {
                let mut r = "upstream MCP at ".to_owned();
                r.append(url.as_str());
                r.append(" did not respond within ");
                r.append(seconds_text(*idle_timeout_secs).as_str());
                r
            },
            UpstreamError::Unreachable { url } => {
                let mut r = "upstream MCP unreachable at ".to_owned();
                r.append(url.as_str());
                r
            },
            UpstreamError::Status { status, text } => {
                let mut r = "upstream returned ".to_owned();
                r.append(written_status(*status).as_str());
                r.append(": ");
                r.append(text.as_str());
                r
            },
            UpstreamError::BodyTimedOut { url, idle_timeout_secs } => {
                let mut r = "upstream MCP response body from ".to_owned();
                r.append(url.as_str());
                r.append(" timed out after ");
                r.append(seconds_text(*idle_timeout_secs).as_str());
                r
            },
            UpstreamError::BodyUnreadable => "failed to read upstream MCP response".to_owned(),
            UpstreamError::BodyNotParsed => "failed to parse upstream MCP response".to_owned(),
            UpstreamError::Rpc { code, message } => {
                let mut r = "upstream MCP error ".to_owned();
                r.append(signed_decimal_text(*code).as_str());
                r.append(": ");
                r.append(message.as_str());
                r
            },
            UpstreamError::NeitherResultNorError => {
                "upstream MCP returned neither result nor error".to_owned()
            },
            UpstreamError::StreamUnreadable => "failed to read upstream SSE stream".to_owned(),
            UpstreamError::StreamIdle { id, idle_timeout_secs } => {
                let mut r = "upstream SSE stream for request id ".to_owned();
                r.append(decimal_text(*id).as_str());
                r.append(" idle for longer than ");
                r.append(seconds_text(*idle_timeout_secs).as_str());
                r
            },
            UpstreamError::StreamEnded { id } => {
                let mut r =
                    "SSE stream ended without a JSON-RPC response for request id ".to_owned();
                r.append(decimal_text(*id).as_str());
                r
            },
        }
    }
}

/// A JSON-RPC request.
#[derive(Debug)]
pub struct RpcRequest<P> {
    pub jsonrpc: &'static str,
    pub id: u64,
    pub method: &'static str,
    pub params: P,
}

/// The parameters of a request that has none: an empty object.
#[derive(Debug)]
pub struct NoParams {}

/// A JSON-RPC error.
#[derive(Debug)]
pub struct RpcError {
    pub code: i32,
    pub message: String,
}

/// A JSON-RPC response, with its result read as an `R`.
pub struct RpcResponse<R> {
    pub id: Option<serde_json::Value>,
    pub result: Option<R>,
    pub error: Option<RpcError>,
}

/// A JSON-RPC notification: it has a method, which a response never has.
pub struct RpcNotification {
    pub method: String,
    pub params: serde_json::Value,
}

/// What a response comes to: its result, else its error, else a failure.
pub open spec fn response_outcome<R>(
    result: Option<R>,
    error: Option<RpcError>,
) -> Result<R, UpstreamError> {
    match (result, error) {
        (Some(r), _) => Ok(r),
        (None, Some(e)) => Err(UpstreamError::Rpc { code: e.code, message: e.message }),
        (None, None) => Err(UpstreamError::NeitherResultNorError),
    }
}

fn response_result<R>(result: Option<R>, error: Option<RpcError>) -> (r: Result<R, UpstreamError>)
    ensures
        r == response_outcome(result, error),
{
    match (result, error) {
        (Some(r), _) => Ok(r),
        (None, Some(e)) => Err(UpstreamError::Rpc { code: e.code, message: e.message }),
        (None, None) => Err(UpstreamError::NeitherResultNorError),
    }
}

/// What came of sending a request.
pub enum SendOutcome<'a> {
    /// No answer came within the idle timeout.
    TimedOut,
    /// The request could not be sent.
    Unreachable,
    /// The status line and the headers of an answer came.
    Answered { status: u16, headers: &'a http::HeaderMap },
}

/// What to do once a request was sent.
pub enum RpcStep {
    /// Give the call up.
    Fail(UpstreamError),
    /// Read the body as the text of an error with this status.
    ReadErrorText(u16),
    /// Read the body as a stream of events.
    ReadEvents,
    /// Read the body as one response.
    ReadBody,
}

/// What came of reading the body of an answer as one response.
pub enum BodyOutcome<R> {
    /// The body did not come within the idle timeout.
    TimedOut,
    /// The body could not be read.
    ReadFailed,
    /// The body is not a JSON-RPC response.
    ParseFailed,
    /// The response that the body holds.
    Parsed(RpcResponse<R>),
}

/// The headers announce a stream of events.
pub open spec fn is_event_stream(fields: Map<Seq<char>, Seq<u8>>) -> bool {
    &&& fields.contains_key("content-type"@)
    &&& match visible_text(fields["content-type"@]) {
        Some(text) => "text/event-stream"@.is_prefix_of(text),
        None => false,
    }
}

fn announces_event_stream(headers: &http::HeaderMap) -> (r: bool)
    ensures
        r == is_event_stream(header_fields(*headers)),
{
    proof {
        reveal_strlit("content-type");
    }
    match header_value(headers, "content-type") {
        Some(value) => match header_text(value) {
            Some(text) => starts_with(text, "text/event-stream"),
            None => false,
        },
        None => false,
    }
}

/// What a client is, and the id that its next request gets.
pub struct ClientView {
    pub url: Seq<char>,
    pub tls_verify: bool,
    pub idle_timeout_secs: u64,
    pub next_id: u64,
}

/// The id after `id`; after the greatest one the ids start again at zero.
pub open spec fn id_after(id: u64) -> u64 {
    if id == u64::MAX {
        0
    } else {
        (id + 1) as u64
    }
}

impl ClientView {
    /// The client once it has used an id.
    pub open spec fn after_request(self) -> ClientView {
        ClientView { next_id: id_after(self.next_id), ..self }
    }

    /// The client once it has used `k` ids.
    pub open spec fn after_requests(self, k: nat) -> ClientView
        decreases k,
    {
        if k == 0 {
            self
        } else {
            self.after_requests((k - 1) as nat).after_request()
        }
    }
}

/// A client of one upstream MCP server.
#[derive(Debug)]
pub struct UpstreamMcpClient {
    url: String,
    tls_verify: bool,
    /// Longest gap allowed between two received events (connect, response
    /// headers, one chunk of a stream) before a call is aborted. Every chunk
    /// starts it anew, so that a long call which keeps sending stays alive.
    idle_timeout_secs: u64,
    next_id: u64,
}

impl View for UpstreamMcpClient {
    type V = ClientView;

    closed spec fn view(&self) -> ClientView {
        ClientView {
            url: self.url@,
            tls_verify: self.tls_verify,
            idle_timeout_secs: self.idle_timeout_secs,
            next_id: self.next_id,
        }
    }
}

impl UpstreamMcpClient {
    /// What a request asks the server to answer with.
    pub fn accept() -> (r: &'static str)
        ensures
            r@ == "application/json, text/event-stream"@,
    {
        "application/json, text/event-stream"
    }

    /// A client of the server at `url`. Its first request has the id 1.
    pub fn new(url: &str, tls_verify: bool, idle_timeout_secs: u64) -> (r: UpstreamMcpClient)
        ensures
            r@ == (ClientView { url: url@, tls_verify, idle_timeout_secs, next_id: 1 }),
    {
        UpstreamMcpClient { url: url.to_owned(), tls_verify, idle_timeout_secs, next_id: 1 }
    }

    /// The address of the server.
    pub fn url(&self) -> (r: &str)
        ensures
            r@ == self@.url,
    {
        self.url.as_str()
    }

    /// Whether the server's certificate is verified.
    pub fn tls_verify(&self) -> (r: bool)
        ensures
            r == self@.tls_verify,
    {
        self.tls_verify
    }

    /// The idle timeout, in seconds.
    pub fn idle_timeout_secs(&self) -> (r: u64)
        ensures
            r == self@.idle_timeout_secs,
    {
        self.idle_timeout_secs
    }

    /// The id for the next request. All that share a client share its ids.
    pub fn next_id(&mut self) -> (r: u64)
        ensures
            r == old(self)@.next_id,
            final(self)@ == old(self)@.after_request(),
    {
        let id: u64 = self.next_id;
        self.next_id = if id == u64::MAX {
            0
        } else {
            id + 1
        };
        id
    }

    fn request<P>(&mut self, method: &'static str, params: P) -> (r: RpcRequest<P>)
        ensures
            r.jsonrpc@ == "2.0"@,
            r.id == old(self)@.next_id,
            r.method == method,
            r.params == params,
            final(self)@ == old(self)@.after_request(),
    {
        let id: u64 = self.next_id();
        RpcRequest { jsonrpc: "2.0", id, method, params }
    }

    /// The request for the server's list of tools.
    pub fn discover_tools(&mut self) -> (r: RpcRequest<NoParams>)
        ensures
            r.jsonrpc@ == "2.0"@,
            r.id == old(self)@.next_id,
            r.method@ == "tools/list"@,
            final(self)@ == old(self)@.after_request(),
    {
        self.request("tools/list", NoParams {  })
    }

    /// The request that forwards a tool call as it is.
    pub fn proxy_call(&mut self, request: rmcp::model::CallToolRequestParams) -> (r: RpcRequest<
        rmcp::model::CallToolRequestParams,
    >)
        ensures
            r.jsonrpc@ == "2.0"@,
            r.id == old(self)@.next_id,
            r.method@ == "tools/call"@,
            r.params == request,
            final(self)@ == old(self)@.after_request(),
    {
        self.request("tools/call", request)
    }

    /// What to do with what came of sending a request.
    pub fn after_send(&self, outcome: SendOutcome) -> (r: RpcStep)
        ensures
            match outcome {
                SendOutcome::TimedOut => {
                    &&& r matches RpcStep::Fail(UpstreamError::NotResponding {
                        url,
                        idle_timeout_secs,
                    })
                    &&& url@ == self@.url
                    &&& idle_timeout_secs == self@.idle_timeout_secs
                },
                SendOutcome::Unreachable => {
                    &&& r matches RpcStep::Fail(UpstreamError::Unreachable { url })
                    &&& url@ == self@.url
                },
                SendOutcome::Answered { status, headers } => r == if !is_success(status) {
                    RpcStep::ReadErrorText(status)
                } else if is_event_stream(header_fields(*headers)) {
                    RpcStep::ReadEvents
                } else {
                    RpcStep::ReadBody
                },
            },
    {
        match outcome {
            SendOutcome::TimedOut => RpcStep::Fail(
                UpstreamError::NotResponding {
                    url: self.url.clone(),
                    idle_timeout_secs: self.idle_timeout_secs,
                },
            ),
            SendOutcome::Unreachable => RpcStep::Fail(
                UpstreamError::Unreachable { url: self.url.clone() },
            ),
            SendOutcome::Answered { status, headers } => {
                if !succeeded(status) {
                    RpcStep::ReadErrorText(status)
                } else if announces_event_stream(headers) {
                    RpcStep::ReadEvents
                } else {
                    RpcStep::ReadBody
                }
            },
        }
    }

    /// The error that an answer without success makes. Where its body did not
    /// come, the text is empty.
    pub fn status_error(status: u16, body: Option<String>) -> (r: UpstreamError)
        ensures
            r matches UpstreamError::Status { status: s, text } && s == status && text@
                == match body {
                Some(t) => t@,
                None => Seq::<char>::empty(),
            },
    {
        UpstreamError::Status {
            status,
            text: match body {
                Some(t) => t,
                None => String::new(),
            },
        }
    }

    /// The result of a call that was answered with one response.
    pub fn after_body<R>(&self, outcome: BodyOutcome<R>) -> (r: Result<R, UpstreamError>)
        ensures
            match outcome {
                BodyOutcome::TimedOut => {
                    &&& r matches Err(UpstreamError::BodyTimedOut { url, idle_timeout_secs })
                    &&& url@ == self@.url
                    &&& idle_timeout_secs == self@.idle_timeout_secs
                },
                BodyOutcome::ReadFailed => r == Err::<R, _>(UpstreamError::BodyUnreadable),
                BodyOutcome::ParseFailed => r == Err::<R, _>(UpstreamError::BodyNotParsed),
                BodyOutcome::Parsed(response) => r == response_outcome(
                    response.result,
                    response.error,
                ),
            },
    {
        match outcome {
            BodyOutcome::TimedOut => Err(
                UpstreamError::BodyTimedOut {
                    url: self.url.clone(),
                    idle_timeout_secs: self.idle_timeout_secs,
                },
            ),
            BodyOutcome::ReadFailed => Err(UpstreamError::BodyUnreadable),
            BodyOutcome::ParseFailed => Err(UpstreamError::BodyNotParsed),
            BodyOutcome::Parsed(response) => response_result(response.result, response.error),
        }
    }
}

/// What an event comes to.
pub enum EventOutcome<R> {
    /// Nothing: read on.
    Skip,
    /// Relay a progress notification, and read on.
    RelayProgress(rmcp::model::ProgressNotificationParam),
    /// Relay a log message, and read on.
    RelayLog(rmcp::model::LoggingMessageNotificationParam),
    /// The call ends with this result.
    Finish(Result<R, UpstreamError>),
}

/// The response answers the request with the id `expected_id`.
pub open spec fn answers<R>(response: RpcResponse<R>, expected_id: u64) -> bool {
    response.id matches Some(id) && json_u64(id) == Some(expected_id)
}

/// What an event comes to that reads as `notification` or else as `response`.
/// Notifications are relayed only where there is someone to relay them to.
pub open spec fn event_outcome<R>(
    notification: Option<RpcNotification>,
    response: Option<RpcResponse<R>>,
    expected_id: u64,
    relay: bool,
) -> EventOutcome<R> {
    match notification {
        Some(n) => if n.method@ == "notifications/progress"@ {
            match progress_params(n.params) {
                Some(params) if relay => EventOutcome::RelayProgress(params),
                _ => EventOutcome::Skip,
            }
        } else if n.method@ == "notifications/message"@ {
            match log_params(n.params) {
                Some(params) if relay => EventOutcome::RelayLog(params),
                _ => EventOutcome::Skip,
            }
        } else {
            EventOutcome::Skip
        },
        None => match response {
            Some(resp) if answers(resp, expected_id) => EventOutcome::Finish(
                response_outcome(resp.result, resp.error),
            ),
            _ => EventOutcome::Skip,
        },
    }
}

/// Inspects one event of a stream. `notification` and `response` are what its
/// payload reads as, each if it does; `relay` tells whether there is someone to
/// relay notifications to.
pub fn handle_sse_event<R>(
    notification: Option<RpcNotification>,
    response: Option<RpcResponse<R>>,
    expected_id: u64,
    relay: bool,
) -> (r: EventOutcome<R>)
    ensures
        r == event_outcome(notification, response, expected_id, relay),
{
    if let Some(n) = notification {
        if same_text(n.method.as_str(), "notifications/progress") {
            if relay {
                if let Some(params) = value_as_progress(n.params) {
                    return EventOutcome::RelayProgress(params);
                }
            }
        } else if same_text(n.method.as_str(), "notifications/message") {
            if relay {
                if let Some(params) = value_as_log(n.params) {
                    return EventOutcome::RelayLog(params);
                }
            }
        }
        return EventOutcome::Skip;
    }
    match response {
        Some(resp) => {
            let is_match = match &resp.id {
                Some(id) => match value_as_u64(id) {
                    Some(id) => id == expected_id,
                    None => false,
                },
                None => false,
            };
            if is_match {
                EventOutcome::Finish(response_result(resp.result, resp.error))
            } else {
                EventOutcome::Skip
            }
        },
        None => EventOutcome::Skip,
    }
}

/// An event as it reads: as a notification, or else as a response.
pub type ReadEvent<R> = (Option<RpcNotification>, Option<RpcResponse<R>>);

/// What the events of a stream come to, in order: what is relayed, and the
/// result with which the call ends, if it ends.
pub open spec fn stream_outcome<R>(
    events: Seq<ReadEvent<R>>,
    expected_id: u64,
    relay: bool,
) -> (Seq<EventOutcome<R>>, Option<Result<R, UpstreamError>>)
    decreases events.len(),
{
    if events.len() == 0 {
        (Seq::empty(), None)
    } else {
        let rest = stream_outcome(events.drop_first(), expected_id, relay);
        match event_outcome(events[0].0, events[0].1, expected_id, relay) {
            EventOutcome::Finish(result) => (Seq::empty(), Some(result)),
            EventOutcome::Skip => rest,
            relayed => (seq![relayed] + rest.0, rest.1),
        }
    }
}

/// The event is the response to the request with the id `expected_id`.
pub open spec fn is_answer<R>(event: ReadEvent<R>, expected_id: u64) -> bool {
    event.0 is None && (event.1 matches Some(response) && answers(response, expected_id))
}

/// A response ends the call exactly if its id is the number that was asked for,
/// whichever that is, and then with its result, or else its error. Any other is
/// passed over.
pub proof fn law_answer_is_told_by_its_id<R>(
    response: RpcResponse<R>,
    expected_id: u64,
    relay: bool,
)
    ensures
        match response.id {
            Some(id) if json_u64(id) == Some(expected_id) => event_outcome(
                None,
                Some(response),
                expected_id,
                relay,
            ) == EventOutcome::Finish(
                match (response.result, response.error) {
                    (Some(result), _) => Ok(result),
                    (None, Some(e)) => Err(
                        UpstreamError::Rpc { code: e.code, message: e.message },
                    ),
                    (None, None) => Err(UpstreamError::NeitherResultNorError),
                },
            ),
            _ => event_outcome(None, Some(response), expected_id, relay) is Skip,
        },
{
}

/// A response that ends a call with one id ends no call with another, and every
/// call can be ended: by the response whose id is its own.
pub proof fn law_each_response_answers_one_request<R>(
    response: RpcResponse<R>,
    id: serde_json::Value,
    n: u64,
    expected_id: u64,
    relay: bool,
)
    requires
        response.id == Some(id),
        json_u64(id) == Some(n),
    ensures
        event_outcome(None, Some(response), expected_id, relay) is Finish <==> n == expected_id,
        is_answer((None, Some(response)), expected_id) <==> n == expected_id,
{
}

/// A notification never ends a call, whatever else it reads as. Progress and log
/// messages are relayed if they can be read and there is someone to relay to;
/// other notifications are not.
pub proof fn law_notifications_are_relayed_or_skipped<R>(
    notification: RpcNotification,
    response: Option<RpcResponse<R>>,
    expected_id: u64,
    relay: bool,
)
    ensures
        ({
            let outcome = event_outcome(Some(notification), response, expected_id, relay);
            let progress = notification.method@ == "notifications/progress"@;
            let log = notification.method@ == "notifications/message"@;
            &&& !(outcome is Finish)
            &&& outcome is RelayProgress <==> relay && progress && progress_params(
                notification.params,
            ) is Some
            &&& outcome matches EventOutcome::RelayProgress(params) ==> progress_params(
                notification.params,
            ) == Some(params)
            &&& outcome is RelayLog <==> relay && log && log_params(notification.params) is Some
            &&& outcome matches EventOutcome::RelayLog(params) ==> log_params(notification.params)
                == Some(params)
        }),
{
    reveal_strlit("notifications/progress");
    reveal_strlit("notifications/message");
    assert("notifications/progress"@.len() != "notifications/message"@.len());
}

/// An event that reads as neither is passed over.
pub proof fn law_unreadable_events_are_passed_over<R>(expected_id: u64, relay: bool)
    ensures
        event_outcome::<R>(None, None, expected_id, relay) is Skip,
        !is_answer::<R>((None, None), expected_id),
{
}

/// A result comes before an error; a response with neither is a failure.
pub proof fn law_results_come_before_errors<R>(result: R, error: RpcError)
    ensures
        response_outcome(Some(result), None) == Ok::<R, UpstreamError>(result),
        response_outcome(Some(result), Some(error)) == Ok::<R, UpstreamError>(result),
        response_outcome(None::<R>, Some(error)) == Err::<R, _>(
            UpstreamError::Rpc { code: error.code, message: error.message },
        ),
        response_outcome(None::<R>, None) == Err::<R, _>(UpstreamError::NeitherResultNorError),
{
}

/// No events come to nothing, and a single event comes to what it comes to by
/// itself.
pub proof fn law_single_event_stands_for_itself<R>(
    event: ReadEvent<R>,
    expected_id: u64,
    relay: bool,
)
    ensures
        stream_outcome(Seq::<ReadEvent<R>>::empty(), expected_id, relay).0.len() == 0,
        stream_outcome(Seq::<ReadEvent<R>>::empty(), expected_id, relay).1 is None,
        match event_outcome(event.0, event.1, expected_id, relay) {
            EventOutcome::Finish(result) => stream_outcome(seq![event], expected_id, relay) == (
                Seq::<EventOutcome<R>>::empty(),
                Some(result),
            ),
            EventOutcome::Skip => stream_outcome(seq![event], expected_id, relay) == (
                Seq::<EventOutcome<R>>::empty(),
                None::<Result<R, UpstreamError>>,
            ),
            relayed => stream_outcome(seq![event], expected_id, relay) == (
                seq![relayed],
                None::<Result<R, UpstreamError>>,
            ),
        },
{
    let one = seq![event];
    assert(one.drop_first() =~= Seq::empty());
    assert(stream_outcome(one.drop_first(), expected_id, relay) == (
        Seq::<EventOutcome<R>>::empty(),
        None::<Result<R, UpstreamError>>,
    ));
    let outcome = event_outcome(event.0, event.1, expected_id, relay);
    assert(seq![outcome] + Seq::<EventOutcome<R>>::empty() =~= seq![outcome]);
}

/// A call ends with the first response to its request: what comes after it on
/// the stream changes neither the result nor what is relayed.
pub proof fn law_first_answer_ends_the_call<R>(
    events: Seq<ReadEvent<R>>,
    k: int,
    expected_id: u64,
    relay: bool,
)
    requires
        0 <= k < events.len(),
        is_answer(events[k], expected_id),
        forall|i: int| 0 <= i < k ==> !is_answer(#[trigger] events[i], expected_id),
    ensures
        stream_outcome(events, expected_id, relay).1 == Some(
            response_outcome(events[k].1->0.result, events[k].1->0.error),
        ),
        stream_outcome(events, expected_id, relay) == stream_outcome(
            events.take(k + 1),
            expected_id,
            relay,
        ),
    decreases events.len(),
{
    let first = events.take(k + 1);
    if k > 0 {
        let rest = events.drop_first();
        assert(!is_answer(events[0], expected_id));
        assert forall|i: int| 0 <= i < k - 1 implies !is_answer(
            #[trigger] rest[i],
            expected_id,
        ) by {
            assert(rest[i] == events[i + 1]);
        }
        law_first_answer_ends_the_call(rest, k - 1, expected_id, relay);
        assert(first.drop_first() =~= rest.take(k));
    }
}

/// A call whose stream never answers it does not end: notifications and
/// responses to other requests are passed over.
pub proof fn law_no_answer_no_result<R>(
    events: Seq<ReadEvent<R>>,
    expected_id: u64,
    relay: bool,
)
    requires
        forall|i: int| 0 <= i < events.len() ==> !is_answer(#[trigger] events[i], expected_id),
    ensures
        stream_outcome(events, expected_id, relay).1 is None,
    decreases events.len(),
{
    if events.len() > 0 {
        let rest = events.drop_first();
        assert(!is_answer(events[0], expected_id));
        assert forall|i: int| 0 <= i < rest.len() implies !is_answer(
            #[trigger] rest[i],
            expected_id,
        ) by {
            assert(rest[i] == events[i + 1]);
        }
        law_no_answer_no_result(rest, expected_id, relay);
    }
}

/// Without someone to relay to, nothing is relayed, and the result is the same.
pub proof fn law_relay_does_not_change_the_result<R>(events: Seq<ReadEvent<R>>, expected_id: u64)
    ensures
        stream_outcome(events, expected_id, false).0.len() == 0,
        stream_outcome(events, expected_id, false).1 == stream_outcome(
            events,
            expected_id,
            true,
        ).1,
    decreases events.len(),
{
    if events.len() > 0 {
        law_relay_does_not_change_the_result(events.drop_first(), expected_id);
    }
}

/// Notifications are relayed in the order in which they come: what the events
/// before a point relay comes before what the events after it relay.
pub proof fn law_relayed_in_order<R>(
    before: Seq<ReadEvent<R>>,
    after: Seq<ReadEvent<R>>,
    expected_id: u64,
    relay: bool,
)
    requires
        stream_outcome(before, expected_id, relay).1 is None,
    ensures
        stream_outcome(before + after, expected_id, relay).0 == stream_outcome(
            before,
            expected_id,
            relay,
        ).0 + stream_outcome(after, expected_id, relay).0,
        stream_outcome(before + after, expected_id, relay).1 == stream_outcome(
            after,
            expected_id,
            relay,
        ).1,
    decreases before.len(),
{
    let all = before + after;
    if before.len() == 0 {
        assert(all =~= after);
        assert(stream_outcome(before, expected_id, relay).0 + stream_outcome(
            after,
            expected_id,
            relay,
        ).0 =~= stream_outcome(after, expected_id, relay).0);
    } else {
        assert(all.drop_first() =~= before.drop_first() + after);
        law_relayed_in_order(before.drop_first(), after, expected_id, relay);
        assert(stream_outcome(all, expected_id, relay).0 =~= stream_outcome(
            before,
            expected_id,
            relay,
        ).0 + stream_outcome(after, expected_id, relay).0);
    }
}

/// What comes after the answer changes neither the result nor what is relayed.
pub proof fn law_ended_call_stays_ended<R>(
    before: Seq<ReadEvent<R>>,
    after: Seq<ReadEvent<R>>,
    expected_id: u64,
    relay: bool,
)
    requires
        stream_outcome(before, expected_id, relay).1 is Some,
    ensures
        stream_outcome(before + after, expected_id, relay) == stream_outcome(
            before,
            expected_id,
            relay,
        ),
    decreases before.len(),
{
    let all = before + after;
    assert(all.drop_first() =~= before.drop_first() + after);
    match event_outcome(before[0].0, before[0].1, expected_id, relay) {
        EventOutcome::Finish(result) => {},
        _ => {
            law_ended_call_stays_ended(before.drop_first(), after, expected_id, relay);
        },
    }
}

/// The first `n` ids that the requests of a client get.
pub open spec fn ids_from(client: ClientView, n: nat) -> Seq<u64>
    decreases n,
{
    if n == 0 {
        Seq::empty()
    } else {
        seq![client.next_id] + ids_from(client.after_request(), (n - 1) as nat)
    }
}

/// The ids of a client's requests are strictly increasing, and so unique, as
/// long as there are greater ids left.
pub proof fn law_ids_increase(client: ClientView, n: nat)
    requires
        client.next_id + n <= u64::MAX + 1,
    ensures
        ids_from(client, n).len() == n,
        forall|i: int|
            0 <= i < n ==> #[trigger] ids_from(client, n)[i] == client.next_id + i,
        forall|i: int, j: int|
            0 <= i < j < n ==> #[trigger] ids_from(client, n)[i] < #[trigger] ids_from(
                client,
                n,
            )[j],
    decreases n,
{
    if n > 1 {
        let rest = ids_from(client.after_request(), (n - 1) as nat);
        law_ids_increase(client.after_request(), (n - 1) as nat);
        assert forall|i: int| 0 <= i < n implies #[trigger] ids_from(client, n)[i]
            == client.next_id + i by {
            if i > 0 {
                assert(ids_from(client, n)[i] == rest[i - 1]);
            }
        }
    } else if n == 1 {
        assert(ids_from(client.after_request(), 0).len() == 0);
    }
}

/// The id of a request is the number of requests that a client was asked for
/// before it, plus one: the first id is 1, no two requests have the same, and
/// later ones have greater ids.
pub proof fn law_ids_count_the_requests(client: ClientView, k: nat)
    requires
        client.next_id == 1,
        k < u64::MAX,
    ensures
        client.after_requests(k).next_id == k + 1,
        client.after_requests(k) == (ClientView { next_id: (k + 1) as u64, ..client }),
        forall|j: nat| j < k ==> #[trigger] client.after_requests(j).next_id
            < client.after_requests(k).next_id,
    decreases k,
{
    if k > 0 {
        let before = (k - 1) as nat;
        law_ids_count_the_requests(client, before);
        assert forall|j: nat| j < k implies #[trigger] client.after_requests(j).next_id
            < client.after_requests(k).next_id by {
            if j < before {
                assert(client.after_requests(j).next_id < client.after_requests(before).next_id);
            }
        }
    }
}

/// What came next on a stream of events.
pub enum StreamInput<'a> {
    /// More bytes.
    Chunk(&'a [u8]),
    /// The stream could not be read.
    Failed,
    /// The stream ended.
    Closed,
    /// Nothing, for as long as the idle timeout.
    Idle,
}

/// What to do next on a stream of events.
pub enum StreamStep {
    /// Inspect this payload of an event.
    Inspect(String),
    /// Wait for what comes next on the stream.
    Await,
    /// Give the call up.
    Fail(UpstreamError),
}

/// What to do next on a stream of events.
pub enum StepView {
    Inspect(Seq<char>),
    Await,
    Fail(UpstreamError),
}

impl View for StreamStep {
    type V = StepView;

    open spec fn view(&self) -> StepView {
        match *self {
            StreamStep::Inspect(data) => StepView::Inspect(data@),
            StreamStep::Await => StepView::Await,
            StreamStep::Fail(error) => StepView::Fail(error),
        }
    }
}

/// A call that is answered with a stream of events.
#[verifier::ext_equal]
pub struct StreamView {
    pub reader: SseView,
    pub expected_id: u64,
    pub idle_timeout_secs: u64,
    pub closed: bool,
}

impl StreamView {
    /// The next step, and the call after it: payloads as long as there are any;
    /// then the stream is awaited, or, where it has ended, the call fails.
    pub open spec fn step(self) -> (StreamView, StepView) {
        let (reader, event) = self.reader.next_event();
        match event {
            Some(data) => (StreamView { reader, ..self }, StepView::Inspect(data)),
            None => if !self.closed {
                (StreamView { reader, ..self }, StepView::Await)
            } else {
                let ended = StreamView {
                    reader: SseView { buf: reader.buf, event: Seq::empty() },
                    ..self
                };
                match payload(reader.event) {
                    Some(data) => (ended, StepView::Inspect(data)),
                    None => (
                        ended,
                        StepView::Fail(UpstreamError::StreamEnded { id: self.expected_id }),
                    ),
                }
            },
        }
    }

    /// The payloads that are there to inspect, in order.
    pub open spec fn payloads(self) -> Seq<Seq<char>> {
        if !self.closed {
            self.reader.events()
        } else {
            match payload(self.reader.settled().event) {
                Some(data) => self.reader.events() + seq![data],
                None => self.reader.events(),
            }
        }
    }
}

impl StreamView {
    /// The payloads that there are to inspect until the end of the stream, in
    /// order, where the rest of it comes in as `chunks`. Nothing comes in on a
    /// stream that has ended.
    pub open spec fn payloads_by_chunks(self, chunks: Seq<Seq<u8>>) -> Seq<Seq<char>> {
        if self.closed {
            self.payloads()
        } else {
            self.reader.events_by_chunks(chunks) + match payload(
                self.reader.settled_by_chunks(chunks).event,
            ) {
                Some(data) => seq![data],
                None => Seq::empty(),
            }
        }
    }
}

/// The steps of a call hand out its payloads one by one, in order, none lost
/// and none twice; only then is more of the stream awaited, or the call given
/// up because the stream has ended. A step changes nothing else of the call, and
/// loses nothing that is still to come.
pub proof fn law_steps_hand_out_payloads(call: StreamView)
    ensures
        call.step().0.closed == call.closed,
        call.step().0.expected_id == call.expected_id,
        call.step().0.idle_timeout_secs == call.idle_timeout_secs,
        !call.closed ==> call.step().0.reader.settled() == call.reader.settled(),
        match call.step() {
            (rest, StepView::Inspect(data)) => call.payloads() == seq![data] + rest.payloads(),
            (rest, StepView::Await) => !call.closed && call.payloads().len() == 0,
            (rest, StepView::Fail(error)) => {
                &&& call.closed
                &&& call.payloads().len() == 0
                &&& error == UpstreamError::StreamEnded { id: call.expected_id }
            },
        },
{
    crate::sse::law_events_one_by_one(call.reader);
    crate::sse::law_nothing_left(call.reader);
    let (reader, event) = call.reader.next_event();
    match event {
        Some(data) => {
            assert(call.payloads() =~= seq![data] + call.step().0.payloads());
        },
        None => {
            if call.closed {
                crate::sse::law_nothing_left(call.reader);
                if let Some(data) = payload(reader.event) {
                    let rest = call.step().0;
                    assert(rest.reader.events().len() == 0);
                    assert(rest.reader.settled() == rest.reader);
                    assert(call.payloads() =~= seq![data] + rest.payloads());
                }
            }
        },
    }
}

/// What a call comes to whose stream comes in as `chunks` and then ends. It takes
/// its steps as they come: each payload is read as `read` reads it, until one of
/// them is the answer; where the stream is awaited, the next chunk comes, or the
/// end where none is left.
pub open spec fn run<R>(
    call: StreamView,
    chunks: Seq<Seq<u8>>,
    read: spec_fn(Seq<char>) -> ReadEvent<R>,
    relay: bool,
) -> (Seq<EventOutcome<R>>, Result<R, UpstreamError>)
    decreases
            chunks.len() + if call.closed {
                0nat
            } else {
                1nat
            },
            call.payloads().len(),
{
    proof {
        law_steps_hand_out_payloads(call);
    }
    match call.step() {
        (rest, StepView::Inspect(data)) => {
            let later = run(rest, chunks, read, relay);
            match event_outcome(read(data).0, read(data).1, call.expected_id, relay) {
                EventOutcome::Finish(result) => (Seq::empty(), result),
                EventOutcome::Skip => later,
                relayed => (seq![relayed] + later.0, later.1),
            }
        },
        (rest, StepView::Await) => if chunks.len() > 0 {
            run(
                StreamView { reader: rest.reader.fed(chunks[0]), ..rest },
                chunks.drop_first(),
                read,
                relay,
            )
        } else {
            run(StreamView { closed: true, ..rest }, chunks, read, relay)
        },
        (_, StepView::Fail(error)) => (Seq::empty(), Err(error)),
    }
}

/// The first step of a call takes its payload off those that are to come.
proof fn lemma_step_by_chunks(call: StreamView, chunks: Seq<Seq<u8>>)
    ensures
        match call.step() {
            (rest, StepView::Inspect(data)) => {
                &&& rest.closed == call.closed
                &&& rest.expected_id == call.expected_id
                &&& call.payloads_by_chunks(chunks) == seq![data] + rest.payloads_by_chunks(chunks)
            },
            (rest, StepView::Await) => {
                &&& rest.expected_id == call.expected_id
                &&& call.payloads_by_chunks(chunks) == if chunks.len() > 0 {
                    (StreamView {
                        reader: rest.reader.fed(chunks[0]),
                        ..rest
                    }).payloads_by_chunks(chunks.drop_first())
                } else {
                    (StreamView { closed: true, ..rest }).payloads_by_chunks(chunks)
                }
            },
            (_, StepView::Fail(_)) => call.payloads_by_chunks(chunks).len() == 0,
        },
{
    law_steps_hand_out_payloads(call);
    if !call.closed {
        crate::sse::law_events_one_by_one(call.reader);
        match call.step() {
            (rest, StepView::Inspect(data)) => {
                assert(call.reader.events_by_chunks(chunks) =~= seq![data]
                    + rest.reader.events_by_chunks(chunks));
                assert(call.payloads_by_chunks(chunks) =~= seq![data] + rest.payloads_by_chunks(
                    chunks,
                ));
            },
            (rest, StepView::Await) => {
                crate::sse::law_nothing_left(call.reader);
                if chunks.len() > 0 {
                    let next = rest.reader.fed(chunks[0]);
                    assert(call.reader.events_by_chunks(chunks) =~= next.events_by_chunks(
                        chunks.drop_first(),
                    ));
                } else {
                    let ended = StreamView { closed: true, ..rest };
                    assert(rest.reader.events().len() == 0);
                    assert(rest.reader.settled() == rest.reader);
                    assert(call.payloads_by_chunks(chunks) =~= ended.payloads_by_chunks(chunks));
                }
            },
            _ => {},
        }
    }
}

/// A call comes to what the payloads of its stream come to, though it is read as
/// it comes: it relays what they relay, and ends with their answer, or fails
/// because the stream ended without one. For a new call these are the events of
/// the chunks, and the one that is pending at the end.
pub proof fn law_call_ends_with_its_answer<R>(
    call: StreamView,
    chunks: Seq<Seq<u8>>,
    read: spec_fn(Seq<char>) -> ReadEvent<R>,
    relay: bool,
)
    ensures
        ({
            let outcome = stream_outcome(
                call.payloads_by_chunks(chunks).map_values(read),
                call.expected_id,
                relay,
            );
            run(call, chunks, read, relay) == (
                outcome.0,
                match outcome.1 {
                    Some(result) => result,
                    None => Err(UpstreamError::StreamEnded { id: call.expected_id }),
                },
            )
        }),
    decreases
            chunks.len() + if call.closed {
                0nat
            } else {
                1nat
            },
            call.payloads().len(),
{
    law_steps_hand_out_payloads(call);
    lemma_step_by_chunks(call, chunks);
    let events = call.payloads_by_chunks(chunks).map_values(read);
    match call.step() {
        (rest, StepView::Inspect(data)) => {
            assert(events[0] == read(data));
            assert(events.drop_first() =~= rest.payloads_by_chunks(chunks).map_values(read));
            law_call_ends_with_its_answer(rest, chunks, read, relay);
        },
        (rest, StepView::Await) => {
            if chunks.len() > 0 {
                law_call_ends_with_its_answer(
                    StreamView { reader: rest.reader.fed(chunks[0]), ..rest },
                    chunks.drop_first(),
                    read,
                    relay,
                );
            } else {
                law_call_ends_with_its_answer(
                    StreamView { closed: true, ..rest },
                    chunks,
                    read,
                    relay,
                );
            }
        },
        _ => {
            assert(events.len() == 0);
        },
    }
}

/// A call does not wait for the end of its stream: once the events of the chunks
/// that came hold the answer, the call ends with it, and neither its result nor
/// what it relays depends on what the stream still sends.
pub proof fn law_call_does_not_wait_for_the_end<R>(
    call: StreamView,
    chunks: Seq<Seq<u8>>,
    more: Seq<Seq<u8>>,
    read: spec_fn(Seq<char>) -> ReadEvent<R>,
    relay: bool,
)
    requires
        !call.closed,
        stream_outcome(
            call.reader.events_by_chunks(chunks).map_values(read),
            call.expected_id,
            relay,
        ).1 is Some,
    ensures
        ({
            let outcome = stream_outcome(
                call.reader.events_by_chunks(chunks).map_values(read),
                call.expected_id,
                relay,
            );
            &&& run(call, chunks, read, relay) == (outcome.0, outcome.1->0)
            &&& run(call, chunks + more, read, relay) == run(call, chunks, read, relay)
        }),
{
    let first = call.reader.events_by_chunks(chunks);
    let whole = call.reader.events_by_chunks(chunks + more);
    let n = first.len() as int;
    crate::sse::law_later_chunks_add_events(call.reader, chunks, more);
    assert forall|i: int| 0 <= i < n implies #[trigger] whole[i] == first[i] by {
        assert(whole.subrange(0, n)[i] == first[i]);
    }
    let before = first.map_values(read);
    let here = call.payloads_by_chunks(chunks).map_values(read);
    let there = call.payloads_by_chunks(chunks + more).map_values(read);
    assert(here =~= before + here.skip(n));
    assert(there =~= before + there.skip(n));
    law_ended_call_stays_ended(before, here.skip(n), call.expected_id, relay);
    law_ended_call_stays_ended(before, there.skip(n), call.expected_id, relay);
    law_call_ends_with_its_answer(call, chunks, read, relay);
    law_call_ends_with_its_answer(call, chunks + more, read, relay);
}

/// The payloads of a stream are the same however its bytes were cut into
/// chunks on the way, and whether it was read as it came or at its end.
pub proof fn law_stream_chunks_do_not_matter(call: StreamView, chunks: Seq<Seq<u8>>)
    requires
        !call.closed,
    ensures
        call.payloads_by_chunks(chunks) == (StreamView {
            reader: call.reader.fed(chunks.flatten()),
            closed: true,
            ..call
        }).payloads(),
{
    crate::sse::law_chunks_do_not_matter(call.reader, chunks);
    let whole = StreamView {
        reader: call.reader.fed(chunks.flatten()),
        closed: true,
        ..call
    };
    assert(call.payloads_by_chunks(chunks) =~= whole.payloads());
}

/// A call that is answered with a stream of events.
pub struct StreamCall {
    reader: SseReader,
    expected_id: u64,
    idle_timeout_secs: u64,
    closed: bool,
}

impl View for StreamCall {
    type V = StreamView;

    closed spec fn view(&self) -> StreamView {
        StreamView {
            reader: self.reader@,
            expected_id: self.expected_id,
            idle_timeout_secs: self.idle_timeout_secs,
            closed: self.closed,
        }
    }
}

impl StreamCall {
    /// The call with the id `expected_id`, before anything of its stream came.
    pub fn new(expected_id: u64, idle_timeout_secs: u64) -> (r: StreamCall)
        ensures
            r@ == (StreamView {
                reader: SseView::empty(),
                expected_id,
                idle_timeout_secs,
                closed: false,
            }),
    {
        StreamCall { reader: SseReader::new(), expected_id, idle_timeout_secs, closed: false }
    }

    /// The next step.
    pub fn next_step(&mut self) -> (r: StreamStep)
        ensures
            (final(self)@, r@) == old(self)@.step(),
    {
        if let Some(data) = self.reader.next_event() {
            return StreamStep::Inspect(data);
        }
        if !self.closed {
            return StreamStep::Await;
        }
        match self.reader.finish() {
            Some(data) => StreamStep::Inspect(data),
            None => StreamStep::Fail(UpstreamError::StreamEnded { id: self.expected_id }),
        }
    }

    /// Takes in what came next on the stream. A chunk never fails the call,
    /// however long the stream has lasted; only a gap without any does.
    pub fn on_input(&mut self, input: StreamInput) -> (r: Result<(), UpstreamError>)
        ensures
            match input {
                StreamInput::Chunk(chunk) => {
                    &&& r is Ok
                    &&& final(self)@ == (StreamView {
                        reader: old(self)@.reader.fed(chunk@),
                        ..old(self)@
                    })
                },
                StreamInput::Closed => {
                    &&& r is Ok
                    &&& final(self)@ == (StreamView { closed: true, ..old(self)@ })
                },
                StreamInput::Failed => {
                    &&& r == Err::<(), _>(UpstreamError::StreamUnreadable)
                    &&& final(self)@ == old(self)@
                },
                StreamInput::Idle => {
                    &&& r == Err::<(), _>(
                        UpstreamError::StreamIdle {
                            id: old(self)@.expected_id,
                            idle_timeout_secs: old(self)@.idle_timeout_secs,
                        },
                    )
                    &&& final(self)@ == old(self)@
                },
            },
    {
        match input {
            StreamInput::Chunk(chunk) => {
                self.reader.feed(chunk);
                Ok(())
            },
            StreamInput::Closed => {
                self.closed = true;
                Ok(())
            },
            StreamInput::Failed => Err(UpstreamError::StreamUnreadable),
            StreamInput::Idle => Err(
                UpstreamError::StreamIdle {
                    id: self.expected_id,
                    idle_timeout_secs: self.idle_timeout_secs,
                },
            ),
        }
    }
}

/// The payloads of a call are the events of its stream; where the stream has
/// ended, the event that is still pending comes last.
pub proof fn law_payloads_are_the_events(call: StreamView)
    ensures
        !call.closed ==> call.payloads() == call.reader.events(),
        call.closed ==> {
            let pending = call.reader.settled().event;
            call.payloads() == if pending.len() > 0 {
                call.reader.events().push(joined(pending, seq!['\n']))
            } else {
                call.reader.events()
            }
        },
{
    let pending = call.reader.settled().event;
    crate::sse::law_payload_is_the_data_lines(pending);
    if call.closed && pending.len() > 0 {
        assert(call.payloads() =~= call.reader.events().push(joined(pending, seq!['\n'])));
    }
}

/// An answer is a stream of events exactly if its content type is readable and
/// starts with `text/event-stream`, whatever follows.
pub proof fn law_content_type_announces_events(fields: Map<Seq<char>, Seq<u8>>)
    ensures
        is_event_stream(fields) <==> {
            let value = fields["content-type"@];
            let announced = "text/event-stream"@;
            &&& fields.contains_key("content-type"@)
            &&& forall|i: int|
                0 <= i < value.len() ==> (32 <= #[trigger] value[i] <= 126 || value[i] == 9)
            &&& value.len() >= announced.len()
            &&& forall|i: int|
                0 <= i < announced.len() ==> value[i] as char == #[trigger] announced[i]
        },
{
    let value = fields["content-type"@];
    let announced = "text/event-stream"@;
    crate::outside::law_visible_bytes_are_text(value, 0);
    if let Some(text) = visible_text(value) {
        assert forall|i: int| 0 <= i < value.len() implies text[i]
            == #[trigger] value[i] as char by {
            crate::outside::law_visible_bytes_are_text(value, i);
        }
        if announced.is_prefix_of(text) {
            assert forall|i: int| 0 <= i < announced.len() implies value[i] as char
                == #[trigger] announced[i] by {
                assert(text.subrange(0, announced.len() as int)[i] == announced[i]);
                assert(text[i] == value[i] as char);
            }
        }
        if value.len() >= announced.len() && forall|i: int|
            0 <= i < announced.len() ==> value[i] as char == #[trigger] announced[i] {
            assert forall|i: int| 0 <= i < announced.len() implies text.subrange(
                0,
                announced.len() as int,
            )[i] == #[trigger] announced[i] by {
                assert(text[i] == value[i] as char);
            }
            assert(text.subrange(0, announced.len() as int) =~= announced);
        }
    }
}

/// A request takes one id and changes nothing else; after the greatest id the
/// ids start again at zero.
pub proof fn law_request_takes_one_id(client: ClientView)
    ensures
        client.after_request().next_id == (client.next_id + 1) % 0x1_0000_0000_0000_0000,
        client.after_request().url == client.url,
        client.after_request().tls_verify == client.tls_verify,
        client.after_request().idle_timeout_secs == client.idle_timeout_secs,
{
}

/// Each error says what happened, and of what: the address, the status and its
/// text, the code and its message, the request, and how long was waited.
pub proof fn law_upstream_errors_say_what_happened(error: UpstreamError)
    ensures
        match error {
            UpstreamError::NotResponding { url, idle_timeout_secs } => error.text()
                == "upstream MCP at "@ + url@ + " did not respond within "@ + duration_text(
                idle_timeout_secs,
            ),
            UpstreamError::Unreachable { url } => error.text() == "upstream MCP unreachable at "@
                + url@,
            UpstreamError::Status { status, text } => error.text() == "upstream returned "@
                + status_text(status) + ": "@ + text@,
            UpstreamError::BodyTimedOut { url, idle_timeout_secs } => error.text()
                == "upstream MCP response body from "@ + url@ + " timed out after "@
                + duration_text(idle_timeout_secs),
            UpstreamError::BodyUnreadable => error.text()
                == "failed to read upstream MCP response"@,
            UpstreamError::BodyNotParsed => error.text()
                == "failed to parse upstream MCP response"@,
            UpstreamError::Rpc { code, message } => error.text() == "upstream MCP error "@
                + signed_decimal(code as int) + ": "@ + message@,
            UpstreamError::NeitherResultNorError => error.text()
                == "upstream MCP returned neither result nor error"@,
            UpstreamError::StreamUnreadable => error.text()
                == "failed to read upstream SSE stream"@,
            UpstreamError::StreamIdle { id, idle_timeout_secs } => error.text()
                == "upstream SSE stream for request id "@ + decimal(id as nat)
                + " idle for longer than "@ + duration_text(idle_timeout_secs),
            UpstreamError::StreamEnded { id } => error.text()
                == "SSE stream ended without a JSON-RPC response for request id "@ + decimal(
                id as nat,
            ),
        },
{
}

/// A step says what is to be done.
pub proof fn law_step_is_as_it_says(step: StreamStep)
    ensures
        match step {
            StreamStep::Inspect(data) => step@ == StepView::Inspect(data@),
            StreamStep::Await => step@ == StepView::Await,
            StreamStep::Fail(error) => step@ == StepView::Fail(error),
        },
{
}

} // verus!
