use http::{HeaderMap, HeaderValue};
use rancher_mcp_proxy::upstream::{
    handle_sse_event, BodyOutcome, EventOutcome, RpcError, RpcNotification, RpcResponse, RpcStep,
    SendOutcome, StreamCall, StreamInput, StreamStep, UpstreamError, UpstreamMcpClient,
};
use rmcp::model::{
    CallToolRequestParams, CallToolResult, ListToolsResult, LoggingMessageNotificationParam,
    ProgressNotificationParam,
};
use serde_json::Value;

fn client(url: &str) -> UpstreamMcpClient {
    UpstreamMcpClient::new(url, false, 30)
}

fn read_notification(data: &str) -> Option<RpcNotification> {
    let value: Value = serde_json::from_str(data).ok()?;
    let method = value.get("method")?.as_str()?.to_string();
    let params = value.get("params").cloned().unwrap_or(Value::Null);
    Some(RpcNotification { method, params })
}

fn read_response(data: &str) -> Option<RpcResponse<Value>> {
    let value: Value = serde_json::from_str(data).ok()?;
    let error = value.get("error").map(|e| RpcError {
        code: e["code"].as_i64().unwrap() as i32,
        message: e["message"].as_str().unwrap().to_string(),
    });
    Some(RpcResponse { id: value.get("id").cloned(), result: value.get("result").cloned(), error })
}

/// What a call came to: what was relayed, and its result.
struct Finished {
    progress: Vec<ProgressNotificationParam>,
    logs: Vec<LoggingMessageNotificationParam>,
    result: Result<Value, String>,
}

/// Runs a call that is answered with `inputs`, in order.
fn run(inputs: Vec<StreamInput>, relay: bool) -> Finished {
    let mut call = StreamCall::new(1, 30);
    let mut inputs = inputs.into_iter();
    let mut progress = vec![];
    let mut logs = vec![];
    loop {
        let failed = match call.next_step() {
            StreamStep::Inspect(data) => {
                let notification = read_notification(&data);
                let response = read_response(&data);
                match handle_sse_event(notification, response, 1, relay) {
                    EventOutcome::Skip => {}
                    EventOutcome::RelayProgress(p) => progress.push(p),
                    EventOutcome::RelayLog(l) => logs.push(l),
                    EventOutcome::Finish(result) => {
                        return Finished { progress, logs, result: result.map_err(|e| e.message()) }
                    }
                }
                None
            }
            StreamStep::Await => {
                call.on_input(inputs.next().unwrap_or(StreamInput::Closed)).err()
            }
            StreamStep::Fail(e) => Some(e),
        };
        if let Some(e) = failed {
            return Finished { progress, logs, result: Err(e.message()) };
        }
    }
}

fn run_chunks(chunks: &[&str], relay: bool) -> Finished {
    run(chunks.iter().map(|c| StreamInput::Chunk(c.as_bytes())).collect(), relay)
}

fn tools_of(finished: &Finished) -> usize {
    finished.result.as_ref().unwrap()["tools"].as_array().unwrap().len()
}

#[test]
fn discover_tools_empty_list() {
    let body = "{\"jsonrpc\":\"2.0\",\"id\":1,\"result\":{\"tools\":[]}}";
    let result =
        client("http://x").after_body(BodyOutcome::Parsed(read_response(body).unwrap())).unwrap();
    assert!(result["tools"].as_array().unwrap().is_empty());
}

#[test]
fn discover_tools_returns_named_tools() {
    let body = "{\"jsonrpc\":\"2.0\",\"id\":1,\"result\":{\"tools\":[\
        {\"name\":\"get_cost\",\"inputSchema\":{\"type\":\"object\",\"properties\":{}}},\
        {\"name\":\"list_namespaces\",\"inputSchema\":{\"type\":\"object\",\"properties\":{}}}]}}";
    let result =
        client("http://x").after_body(BodyOutcome::Parsed(read_response(body).unwrap())).unwrap();
    let tools = serde_json::from_value::<ListToolsResult>(result).unwrap().tools;
    assert_eq!(tools.len(), 2);
    assert_eq!(tools[0].name.as_ref(), "get_cost");
    assert_eq!(tools[1].name.as_ref(), "list_namespaces");
}

#[test]
fn proxy_call_returns_text_content() {
    let body = "{\"jsonrpc\":\"2.0\",\"id\":1,\
        \"result\":{\"content\":[{\"type\":\"text\",\"text\":\"$42.00\"}]}}";
    let result =
        client("http://x").after_body(BodyOutcome::Parsed(read_response(body).unwrap())).unwrap();
    let result = serde_json::from_value::<CallToolResult>(result).unwrap();
    assert_eq!(result.content.len(), 1);
}

#[test]
fn request_includes_accept_json_and_event_stream() {
    let accept = UpstreamMcpClient::accept();
    assert!(accept.contains("application/json"), "Accept was: {accept}");
    assert!(accept.contains("text/event-stream"), "Accept was: {accept}");
}

#[test]
fn http_error_status_returns_error() {
    let headers = HeaderMap::new();
    let outcome = SendOutcome::Answered { status: 500, headers: &headers };
    assert!(matches!(client("http://x").after_send(outcome), RpcStep::ReadErrorText(500)));
    let err = UpstreamMcpClient::status_error(500, Some("server exploded".into()));
    assert_eq!(err.message(), "upstream returned 500 Internal Server Error: server exploded");
    assert_eq!(UpstreamMcpClient::status_error(404, None).message(), "upstream returned 404 Not Found: ");
}

#[test]
fn jsonrpc_error_propagated() {
    let body =
        "{\"jsonrpc\":\"2.0\",\"id\":1,\"error\":{\"code\":-32600,\"message\":\"Invalid Request\"}}";
    let err = client("http://x")
        .after_body(BodyOutcome::Parsed(read_response(body).unwrap()))
        .unwrap_err()
        .message();
    assert!(err.contains("Invalid Request"), "got: {err}");
    assert_eq!(err, "upstream MCP error -32600: Invalid Request");
}

#[test]
fn response_with_neither_result_nor_error_fails() {
    // Valid JSON-RPC envelope but neither "result" nor "error" field.
    let body = "{\"jsonrpc\":\"2.0\",\"id\":1}";
    let err = client("http://x")
        .after_body(BodyOutcome::Parsed(read_response(body).unwrap()))
        .unwrap_err()
        .message();
    assert!(err.contains("neither result nor error"), "got: {err}");
}

#[test]
fn result_comes_before_error() {
    let response = RpcResponse {
        id: None,
        result: Some(Value::Bool(true)),
        error: Some(RpcError { code: 1, message: "m".into() }),
    };
    assert_eq!(
        client("http://x").after_body(BodyOutcome::Parsed(response)).unwrap(),
        Value::Bool(true)
    );
}

#[test]
fn unreachable_server_returns_error() {
    match client("http://x").after_send(SendOutcome::Unreachable) {
        RpcStep::Fail(e) => assert_eq!(e.message(), "upstream MCP unreachable at http://x"),
        _ => panic!("call goes on"),
    }
}

#[test]
fn idle_timeout_during_initial_request_times_out() {
    match client("http://x").after_send(SendOutcome::TimedOut) {
        RpcStep::Fail(e) => {
            assert_eq!(e.message(), "upstream MCP at http://x did not respond within 30s")
        }
        _ => panic!("call goes on"),
    }
}

#[test]
fn body_failures_have_their_own_messages() {
    let c = client("http://x");
    assert_eq!(
        c.after_body::<Value>(BodyOutcome::TimedOut).unwrap_err().message(),
        "upstream MCP response body from http://x timed out after 30s"
    );
    assert_eq!(
        c.after_body::<Value>(BodyOutcome::ReadFailed).unwrap_err().message(),
        "failed to read upstream MCP response"
    );
    assert_eq!(
        c.after_body::<Value>(BodyOutcome::ParseFailed).unwrap_err().message(),
        "failed to parse upstream MCP response"
    );
}

#[test]
fn content_type_decides_how_the_body_is_read() {
    let c = client("http://x");
    let mut headers = HeaderMap::new();
    assert!(matches!(
        c.after_send(SendOutcome::Answered { status: 200, headers: &headers }),
        RpcStep::ReadBody
    ));
    for (content_type, stream) in [
        ("text/event-stream", true),
        ("text/event-stream; charset=utf-8", true),
        ("application/json", false),
        ("Text/event-stream", false),
        ("text/event-strea", false),
    ] {
        headers.insert("Content-Type", HeaderValue::from_static(content_type));
        let step = c.after_send(SendOutcome::Answered { status: 200, headers: &headers });
        assert_eq!(matches!(step, RpcStep::ReadEvents), stream, "{content_type}");
        assert_eq!(matches!(step, RpcStep::ReadBody), !stream, "{content_type}");
    }
    headers.insert("content-type", HeaderValue::from_bytes(b"text/event-stream\xff").unwrap());
    assert!(matches!(
        c.after_send(SendOutcome::Answered { status: 200, headers: &headers }),
        RpcStep::ReadBody
    ));
    headers.insert("content-type", HeaderValue::from_static("text/event-stream"));
    assert!(matches!(
        c.after_send(SendOutcome::Answered { status: 302, headers: &headers }),
        RpcStep::ReadErrorText(302)
    ));
}

#[test]
fn request_ids_are_unique_and_strictly_increasing() {
    let mut c = client("http://x");
    let ids = [c.discover_tools().id, c.discover_tools().id, c.proxy_call(CallToolRequestParams::new("t")).id];
    assert_eq!(ids.len(), 3);
    assert!(ids[0] < ids[1], "ids not increasing: {ids:?}");
    assert!(ids[1] < ids[2], "ids not increasing: {ids:?}");
    assert_eq!(ids[0], 1);
}

#[test]
fn ids_count_the_requests() {
    let mut c = client("http://x");
    for k in 0..5 {
        assert_eq!(c.next_id(), k + 1);
    }
    assert_eq!(c.discover_tools().id, 6);
}

#[test]
fn requests_name_their_method() {
    let mut c = client("http://x");
    let list = c.discover_tools();
    assert_eq!((list.jsonrpc, list.method), ("2.0", "tools/list"));
    let params = CallToolRequestParams::new("get_cost");
    let call = c.proxy_call(params.clone());
    assert_eq!((call.jsonrpc, call.method), ("2.0", "tools/call"));
    assert_eq!(call.params, params);
}

#[test]
fn client_keeps_its_settings() {
    let c = UpstreamMcpClient::new("http://x/mcp", true, 12);
    assert_eq!(c.url(), "http://x/mcp");
    assert!(c.tls_verify());
    assert_eq!(c.idle_timeout_secs(), 12);
}

#[test]
fn sse_response_is_parsed() {
    let finished =
        run_chunks(&["data: {\"jsonrpc\":\"2.0\",\"id\":1,\"result\":{\"tools\":[]}}\n\n"], false);
    assert_eq!(tools_of(&finished), 0);
}

#[test]
fn sse_skips_notifications_before_matching_response() {
    let finished = run_chunks(
        &["data: {\"jsonrpc\":\"2.0\",\"method\":\"notifications/progress\",\"params\":{}}\n\n\
           data: {\"jsonrpc\":\"2.0\",\"id\":1,\"result\":{\"tools\":[]}}\n\n"],
        false,
    );
    assert_eq!(tools_of(&finished), 0);
}

#[test]
fn sse_jsonrpc_error_is_propagated() {
    let finished = run_chunks(
        &["data: {\"jsonrpc\":\"2.0\",\"id\":1,\"error\":{\"code\":-32600,\"message\":\"Invalid Request\"}}\n\n"],
        false,
    );
    let err = finished.result.unwrap_err();
    assert!(err.contains("Invalid Request"), "got: {err}");
}

#[test]
fn sse_stream_without_matching_response_errors() {
    let finished = run_chunks(
        &["data: {\"jsonrpc\":\"2.0\",\"method\":\"notifications/progress\",\"params\":{}}\n\n"],
        false,
    );
    let err = finished.result.unwrap_err();
    assert!(err.contains("without a JSON-RPC response"), "got: {err}");
    assert_eq!(err, "SSE stream ended without a JSON-RPC response for request id 1");
}

#[test]
fn sse_progress_events_are_relayed_in_order() {
    let finished = run_chunks(
        &["data: {\"jsonrpc\":\"2.0\",\"method\":\"notifications/progress\",\"params\":{\"progressToken\":\"tok-1\",\"progress\":0.3,\"message\":\"starting\"}}\n\n\
           data: {\"jsonrpc\":\"2.0\",\"method\":\"notifications/progress\",\"params\":{\"progressToken\":\"tok-1\",\"progress\":0.8,\"message\":\"almost done\"}}\n\n\
           data: {\"jsonrpc\":\"2.0\",\"id\":1,\"result\":{\"content\":[{\"type\":\"text\",\"text\":\"done\"}]}}\n\n"],
        true,
    );
    assert_eq!(finished.result.as_ref().unwrap()["content"].as_array().unwrap().len(), 1);
    let events = finished.progress;
    assert_eq!(events.len(), 2);
    assert_eq!(events[0].progress, 0.3);
    assert_eq!(events[0].message.as_deref(), Some("starting"));
    assert_eq!(events[1].progress, 0.8);
    assert_eq!(events[1].message.as_deref(), Some("almost done"));
}

#[test]
fn sse_log_messages_are_relayed_in_order() {
    let finished = run_chunks(
        &["data: {\"jsonrpc\":\"2.0\",\"method\":\"notifications/message\",\"params\":{\"level\":\"info\",\"data\":\"fetching data\"}}\n\n\
           data: {\"jsonrpc\":\"2.0\",\"method\":\"notifications/message\",\"params\":{\"level\":\"warning\",\"data\":\"retrying\"}}\n\n\
           data: {\"jsonrpc\":\"2.0\",\"id\":1,\"result\":{\"content\":[{\"type\":\"text\",\"text\":\"done\"}]}}\n\n"],
        true,
    );
    assert!(finished.result.is_ok());
    let logs = finished.logs;
    assert_eq!(logs.len(), 2);
    assert_eq!(logs[0].data, Value::String("fetching data".into()));
    assert_eq!(logs[1].data, Value::String("retrying".into()));
    assert!(finished.progress.is_empty());
}

#[test]
fn sse_progress_and_log_events_relayed_independently() {
    let finished = run_chunks(
        &["data: {\"jsonrpc\":\"2.0\",\"method\":\"notifications/progress\",\"params\":{\"progressToken\":\"tok\",\"progress\":0.3}}\n\n\
           data: {\"jsonrpc\":\"2.0\",\"method\":\"notifications/message\",\"params\":{\"level\":\"info\",\"data\":\"working\"}}\n\n\
           data: {\"jsonrpc\":\"2.0\",\"method\":\"notifications/progress\",\"params\":{\"progressToken\":\"tok\",\"progress\":0.9}}\n\n\
           data: {\"jsonrpc\":\"2.0\",\"id\":1,\"result\":{\"content\":[{\"type\":\"text\",\"text\":\"done\"}]}}\n\n"],
        true,
    );
    assert!(finished.result.is_ok());
    assert_eq!(finished.progress.len(), 2);
    assert_eq!(finished.progress[0].progress, 0.3);
    assert_eq!(finished.progress[1].progress, 0.9);
    assert_eq!(finished.logs.len(), 1);
    assert_eq!(finished.logs[0].data, Value::String("working".into()));
}

#[test]
fn sse_relay_not_invoked_for_unknown_notification() {
    let finished = run_chunks(
        &["data: {\"jsonrpc\":\"2.0\",\"method\":\"notifications/something_unknown\",\"params\":{}}\n\n\
           data: {\"jsonrpc\":\"2.0\",\"id\":1,\"result\":{\"tools\":[]}}\n\n"],
        true,
    );
    assert_eq!(tools_of(&finished), 0);
    assert!(finished.progress.is_empty());
    assert!(finished.logs.is_empty());
}

#[test]
fn sse_streamed_across_multiple_chunks_relays_progress_and_returns_result() {
    let finished = run_chunks(
        &[
            "data: {\"jsonrpc\":\"2.0\",\"method\":\"notifications/progress\",\"params\":{\"progressToken\":\"tok-1\",\"progress\":0.5}}\n\n",
            "data: {\"jsonrpc\":\"2.0\",\"id\":1,\"result\":{\"tools\":[]}}\n\n",
        ],
        true,
    );
    assert_eq!(tools_of(&finished), 0);
    assert_eq!(finished.progress.len(), 1);
    assert_eq!(finished.progress[0].progress, 0.5);
}

#[test]
fn sse_line_split_across_chunk_boundary_still_parses() {
    let finished = run_chunks(
        &["data: {\"jsonrpc\":\"2.0\",\"id\":1,\"resul", "t\":{\"tools\":[]}}\n\n"],
        false,
    );
    assert_eq!(tools_of(&finished), 0);
}

#[test]
fn idle_timeout_kills_stalled_sse_stream() {
    let finished = run(vec![StreamInput::Idle], false);
    let err = finished.result.unwrap_err();
    assert!(err.contains("idle for longer than"), "got: {err}");
    assert_eq!(err, "upstream SSE stream for request id 1 idle for longer than 30s");
}

#[test]
fn idle_timeout_survives_total_duration_exceeding_timeout_via_steady_progress() {
    let finished = run_chunks(
        &[
            "data: {\"jsonrpc\":\"2.0\",\"method\":\"notifications/progress\",\"params\":{\"progressToken\":\"tok-1\",\"progress\":0.25}}\n\n",
            "data: {\"jsonrpc\":\"2.0\",\"method\":\"notifications/progress\",\"params\":{\"progressToken\":\"tok-1\",\"progress\":0.5}}\n\n",
            "data: {\"jsonrpc\":\"2.0\",\"method\":\"notifications/progress\",\"params\":{\"progressToken\":\"tok-1\",\"progress\":0.75}}\n\n",
            "data: {\"jsonrpc\":\"2.0\",\"id\":1,\"result\":{\"tools\":[]}}\n\n",
        ],
        false,
    );
    assert_eq!(tools_of(&finished), 0);
    assert!(finished.progress.is_empty());
}

#[test]
fn failed_stream_fails_the_call() {
    let finished = run(vec![StreamInput::Failed], false);
    assert_eq!(finished.result.unwrap_err(), "failed to read upstream SSE stream");
}

#[test]
fn responses_to_other_requests_are_skipped() {
    let finished = run_chunks(
        &["data: {\"id\":2,\"result\":{\"tools\":[1]}}\n\n\
           data: {\"id\":\"1\",\"result\":{\"tools\":[1]}}\n\n\
           data: {\"result\":{\"tools\":[1]}}\n\n\
           data: not json\n\n\
           data: {\"id\":1,\"result\":{\"tools\":[]}}\n\n\
           data: {\"id\":1,\"result\":{\"tools\":[1,2]}}\n\n"],
        false,
    );
    assert_eq!(tools_of(&finished), 0);
}

#[test]
fn call_does_not_wait_for_the_end_of_its_stream() {
    let answer: &[u8] = b"data: {\"id\":1,\"result\":{\"tools\":[]}}\n\ndata: {\"id\":1,";
    let finished = run(vec![StreamInput::Chunk(answer), StreamInput::Idle], false);
    assert_eq!(tools_of(&finished), 0);
}

#[test]
fn notifications_that_do_not_read_are_not_relayed() {
    let finished = run_chunks(
        &["data: {\"method\":\"notifications/progress\",\"params\":{\"progress\":\"x\"}}\n\n\
           data: {\"method\":\"notifications/message\"}\n\n\
           data: {\"method\":\"notifications/message\",\"id\":1,\"result\":{}}\n\n"],
        true,
    );
    assert!(finished.progress.is_empty());
    assert!(finished.logs.is_empty());
    assert!(finished.result.is_err());
}

#[test]
fn last_event_needs_no_empty_line() {
    let finished = run_chunks(&["data: {\"id\":1,\"result\":{\"tools\":[]}}\n"], false);
    assert_eq!(tools_of(&finished), 0);
    let finished = run_chunks(&["data: {\"id\":1,\"result\":{\"tools\":[]}}"], false);
    assert!(finished.result.is_err());
}

#[test]
fn errors_are_written_out() {
    for (error, text) in [
        (
            UpstreamError::NotResponding { url: "u".into(), idle_timeout_secs: 0 },
            "upstream MCP at u did not respond within 0ns",
        ),
        (UpstreamError::Rpc { code: i32::MIN, message: "m".into() }, "upstream MCP error -2147483648: m"),
        (UpstreamError::Rpc { code: 0, message: String::new() }, "upstream MCP error 0: "),
        (
            UpstreamError::Status { status: 99, text: "t".into() },
            "upstream returned 99: t",
        ),
        (
            UpstreamError::StreamEnded { id: u64::MAX },
            "SSE stream ended without a JSON-RPC response for request id 18446744073709551615",
        ),
    ] {
        assert_eq!(error.message(), text);
    }
}
