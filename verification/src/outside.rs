//! What the library takes from other crates and from parts of the standard
//! library that have no specification: the types that it carries through, and
//! the calls that it makes. Each contract here is believed, not proved.
use vstd::prelude::*;
use vstd::utf8::{decode_utf8, valid_utf8};

use crate::rancher_auth::{AuthContext, ContextView};
use crate::text::{decimal, opt_str};

verus! {

/// The text that lossy UTF-8 decoding makes of ill-formed `bytes`.
pub uninterp spec fn utf8_repaired(bytes: Seq<u8>) -> Seq<char>;

/// The text that lossy UTF-8 decoding makes of `bytes`.
pub open spec fn utf8_lossy(bytes: Seq<u8>) -> Seq<char> {
    if valid_utf8(bytes) {
        decode_utf8(bytes)
    } else {
        utf8_repaired(bytes)
    }
}

/// [`String::from_utf8_lossy`]. Bytes that are valid UTF-8 give the text that
/// they encode. Of other bytes the text depends on the bytes alone; which
/// characters stand for the ill-formed parts is left unsaid.
#[verifier::external_body]
pub(crate) fn from_utf8_lossy(bytes: &[u8]) -> (r: String)
    ensures
        r@ == (if valid_utf8(bytes@) {
            decode_utf8(bytes@)
        } else {
            utf8_repaired(bytes@)
        }),
{
    String::from_utf8_lossy(bytes).into_owned()
}

/// `s` as the standard library writes it for debugging: in quotes, with what
/// needs it escaped.
pub uninterp spec fn debug_text(s: Seq<char>) -> Seq<char>;

/// The `{:?}` form of a [`str`]. It depends on the text alone; how a character
/// is escaped is left unsaid.
#[verifier::external_body]
pub(crate) fn quoted(s: &str) -> (r: String)
    ensures
        r@ == debug_text(s@),
{
    format!("{:?}", s)
}

/// A duration of `secs` whole seconds, as the standard library writes it for
/// debugging.
pub uninterp spec fn duration_text(secs: u64) -> Seq<char>;

/// The `{:?}` form of a [`std::time::Duration`] of `secs` seconds. It depends
/// on the number alone; how the duration is written is left unsaid.
#[verifier::external_body]
pub(crate) fn seconds_text(secs: u64) -> (r: String)
    ensures
        r@ == duration_text(secs),
{
    format!("{:?}", std::time::Duration::from_secs(secs))
}

/// The reason phrase that goes with a status code, or the text that stands for
/// an unknown one.
pub uninterp spec fn reason_phrase(status: u16) -> Seq<char>;

/// The status codes that exist: three digits, the first of them not zero.
pub open spec fn is_status(status: u16) -> bool {
    100 <= status <= 999
}

/// How a status code is written: the number and its reason phrase.
pub open spec fn status_line(status: u16) -> Seq<char> {
    decimal(status as nat) + " "@ + reason_phrase(status)
}

/// [`http::StatusCode::from_u16`], and its `Display`. A number of three digits
/// makes a status code, and is written with its reason phrase after it; which
/// phrase that is depends on the number alone and is left unsaid.
#[verifier::external_body]
pub(crate) fn status_display(status: u16) -> (r: Option<String>)
    ensures
        r is Some == (100 <= status <= 999),
        r is Some ==> r->0@ == decimal(status as nat) + " "@ + reason_phrase(status),
{
    match http::StatusCode::from_u16(status) {
        Ok(code) => Some(code.to_string()),
        Err(_) => None,
    }
}

/// A map of HTTP headers.
#[verifier::external_type_specification]
#[verifier::external_body]
#[verifier::reject_recursive_types(T)]
pub struct ExHeaderMap<T>(http::HeaderMap<T>);

/// The value of an HTTP header.
#[verifier::external_type_specification]
#[verifier::external_body]
pub struct ExHeaderValue(http::HeaderValue);

/// What a map of headers holds: for each name, in lower case, the bytes of the
/// first value that stands under it.
pub uninterp spec fn header_fields(headers: http::HeaderMap) -> Map<Seq<char>, Seq<u8>>;

/// The bytes that a header value holds.
pub uninterp spec fn header_bytes(value: http::HeaderValue) -> Seq<u8>;

/// A header name in lower case: letters, digits, `-` and `_`.
pub open spec fn is_header_name(name: Seq<char>) -> bool {
    &&& name.len() > 0
    &&& forall|i: int|
        0 <= i < name.len() ==> 'a' <= #[trigger] name[i] <= 'z' || '0' <= name[i] <= '9'
            || name[i] == '-' || name[i] == '_'
}

/// [`http::HeaderMap::get`]. It finds the first value under the name, whatever
/// the case in which the name was sent.
#[verifier::external_body]
pub(crate) fn header_value<'a>(headers: &'a http::HeaderMap, name: &str) -> (r: Option<
    &'a http::HeaderValue,
>)
    requires
        is_header_name(name@),
    ensures
        r is Some == header_fields(*headers).contains_key(name@),
        r is Some ==> header_bytes(*r->0) == header_fields(*headers)[name@],
{
    headers.get(name)
}

/// A byte that can stand in a header value which is read as text: visible
/// ASCII, a space or a tab.
pub open spec fn is_visible(byte: u8) -> bool {
    32 <= byte < 127 || byte == 9
}

/// The text of a header value, if all its bytes are visible ASCII.
pub open spec fn visible_text(bytes: Seq<u8>) -> Option<Seq<char>> {
    if forall|i: int| 0 <= i < bytes.len() ==> is_visible(#[trigger] bytes[i]) {
        Some(Seq::new(bytes.len(), |i: int| bytes[i] as char))
    } else {
        None
    }
}

/// [`http::HeaderValue::to_str`]. It gives the text of a value whose bytes are
/// all visible ASCII, and fails on any other.
#[verifier::external_body]
pub(crate) fn header_text(value: &http::HeaderValue) -> (r: Option<&str>)
    ensures
        opt_str(r) == visible_text(header_bytes(*value)),
{
    value.to_str().ok()
}

/// A JSON value.
#[verifier::external_type_specification]
#[verifier::external_body]
pub struct ExJsonValue(serde_json::Value);

/// The parameters of a progress notification.
#[verifier::external_type_specification]
#[verifier::external_body]
pub struct ExProgressParams(rmcp::model::ProgressNotificationParam);

/// The parameters of a log message notification.
#[verifier::external_type_specification]
#[verifier::external_body]
pub struct ExLogParams(rmcp::model::LoggingMessageNotificationParam);

/// The unsigned 64-bit integer that a JSON value is, if it is one.
pub uninterp spec fn json_u64(value: serde_json::Value) -> Option<u64>;

/// [`serde_json::Value::as_u64`]. It depends on the value alone.
#[verifier::external_body]
pub(crate) fn value_as_u64(value: &serde_json::Value) -> (r: Option<u64>)
    ensures
        r == json_u64(*value),
{
    value.as_u64()
}

/// The progress notification that a JSON value describes, if it describes one.
pub uninterp spec fn progress_params(value: serde_json::Value) -> Option<
    rmcp::model::ProgressNotificationParam,
>;

/// [`serde_json::from_value`] into the parameters of a progress notification.
/// It depends on the value alone; which values describe such parameters is left
/// unsaid.
#[verifier::external_body]
pub(crate) fn value_as_progress(value: serde_json::Value) -> (r: Option<
    rmcp::model::ProgressNotificationParam,
>)
    ensures
        r == progress_params(value),
{
    serde_json::from_value(value).ok()
}

/// The log message that a JSON value describes, if it describes one.
pub uninterp spec fn log_params(value: serde_json::Value) -> Option<
    rmcp::model::LoggingMessageNotificationParam,
>;

/// [`serde_json::from_value`] into the parameters of a log message. It depends
/// on the value alone; which values describe such parameters is left unsaid.
#[verifier::external_body]
pub(crate) fn value_as_log(value: serde_json::Value) -> (r: Option<
    rmcp::model::LoggingMessageNotificationParam,
>)
    ensures
        r == log_params(value),
{
    serde_json::from_value(value).ok()
}

/// A tool of an upstream server.
#[verifier::external_type_specification]
#[verifier::external_body]
pub struct ExTool(rmcp::model::Tool);

/// The parameters of a tool call.
#[verifier::external_type_specification]
#[verifier::external_body]
pub struct ExCallParams(rmcp::model::CallToolRequestParams);

/// The metadata that comes with a request.
#[verifier::external_type_specification]
#[verifier::external_body]
pub struct ExMeta(rmcp::model::Meta);

/// The token that ties progress notifications to a request.
#[verifier::external_type_specification]
#[verifier::external_body]
pub struct ExProgressToken(rmcp::model::ProgressToken);

/// The head of an HTTP request, with what was attached to it.
#[verifier::external_type_specification]
#[verifier::external_body]
pub struct ExParts(http::request::Parts);

/// The name of the tool that is called.
pub uninterp spec fn called_tool(request: rmcp::model::CallToolRequestParams) -> Seq<char>;

/// The field `name` of [`rmcp::model::CallToolRequestParams`], as a slice. It
/// depends on the parameters alone.
#[verifier::external_body]
pub(crate) fn called_tool_name(request: &rmcp::model::CallToolRequestParams) -> (r: &str)
    ensures
        r@ == called_tool(*request),
{
    request.name.as_ref()
}

/// The progress token that metadata holds, if it holds one.
pub uninterp spec fn meta_token(meta: rmcp::model::Meta) -> Option<rmcp::model::ProgressToken>;

/// [`rmcp::model::Meta::get_progress_token`]. It depends on the metadata alone.
#[verifier::external_body]
pub(crate) fn progress_token(meta: &rmcp::model::Meta) -> (r: Option<rmcp::model::ProgressToken>)
    ensures
        r == meta_token(*meta),
{
    meta.get_progress_token()
}

/// The progress token that a call carries, if it carries one: what
/// [`rmcp::model::RequestParamsMeta::progress_token`] reads from its parameters.
pub uninterp spec fn call_token(request: rmcp::model::CallToolRequestParams) -> Option<
    rmcp::model::ProgressToken,
>;

/// A call with a progress token set on it.
pub uninterp spec fn with_token(
    request: rmcp::model::CallToolRequestParams,
    token: rmcp::model::ProgressToken,
) -> rmcp::model::CallToolRequestParams;

/// [`rmcp::model::RequestParamsMeta::set_progress_token`] on the parameters of a
/// tool call. Afterwards the call carries that token, whatever it carried
/// before, and is still a call of the same tool; what becomes of it depends on
/// the call and the token alone.
#[verifier::external_body]
pub(crate) fn set_progress_token(
    request: &mut rmcp::model::CallToolRequestParams,
    token: rmcp::model::ProgressToken,
)
    ensures
        *final(request) == with_token(*old(request), token),
        call_token(*final(request)) == Some(token),
        called_tool(*final(request)) == called_tool(*old(request)),
{
    rmcp::model::RequestParamsMeta::set_progress_token(request, token)
}

/// The identity that was attached to an HTTP request, if one was.
pub uninterp spec fn attached_context(parts: http::request::Parts) -> Option<ContextView>;

/// [`http::Extensions::get`] of an [`AuthContext`], on the extensions of an HTTP
/// request. It finds the context that was inserted there.
#[verifier::external_body]
pub(crate) fn context_of(parts: &http::request::Parts) -> (r: Option<&AuthContext>)
    ensures
        match r {
            Some(context) => attached_context(*parts) == Some(context@),
            None => attached_context(*parts) is None,
        },
{
    parts.extensions.get::<AuthContext>()
}

/// A header value reads as text exactly if each of its bytes is visible ASCII, a
/// space or a tab, and then byte for byte.
pub proof fn law_visible_bytes_are_text(bytes: Seq<u8>, i: int)
    ensures
        visible_text(bytes) is Some <==> forall|k: int|
            0 <= k < bytes.len() ==> (32 <= #[trigger] bytes[k] <= 126 || bytes[k] == 9),
        visible_text(bytes) matches Some(text) ==> {
            &&& text.len() == bytes.len()
            &&& 0 <= i < bytes.len() ==> text[i] == bytes[i] as char
        },
{
    if visible_text(bytes) is Some {
        assert forall|k: int| 0 <= k < bytes.len() implies (32 <= #[trigger] bytes[k] <= 126
            || bytes[k] == 9) by {
            assert(is_visible(bytes[k]));
        }
    }
}

/// A text of well-formed UTF-8 is read as it was written.
pub proof fn law_well_formed_text_is_kept(text: Seq<char>)
    ensures
        utf8_lossy(vstd::utf8::encode_utf8(text)) == text,
{
    vstd::utf8::encode_utf8_valid_utf8(text);
    vstd::utf8::encode_utf8_decode_utf8(text);
}

} // verus!
