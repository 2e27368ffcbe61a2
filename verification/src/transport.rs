//! The checks of the grep.app MCP JSON-RPC exchange: response selection, result
//! shapes, Server-Sent Events framing, and the HTTP limits of a response.

use vstd::prelude::*;
use vstd::utf8::{decode_utf8, encode_utf8, valid_utf8};
use crate::sanitize::{sanitize, sanitized};
use crate::args::opt_view;
use crate::text::{
    chars_of, concat, join, lines, lines_of, str_eq, string_from_chars, strip_prefix,
    strip_prefix_chars, trim, trim_chars, utf8_len, views, same_chars,
};

verus! {

/// The MCP protocol version that the client speaks and requires.
pub const PROTOCOL_VERSION: &'static str = "2025-06-18";

/// The most bytes of a response body.
pub const MAX_BODY_BYTES: usize = 2 * 1024 * 1024;

/// The most bytes of an MCP session id.
pub const MAX_SESSION_ID_BYTES: usize = 1024;

/// The most content items of a tool result.
pub const MAX_CONTENT_ITEMS: usize = 200;

/// A JSON value as received: its shape, and its compact serialization.
#[derive(Debug)]
pub struct Json {
    pub value: JsonValue,
    /// The value serialized compactly, as `serde_json::to_string` writes it.
    pub text: String,
}

/// The shape of a JSON value.
#[derive(Debug)]
pub enum JsonValue {
    Null,
    Bool(bool),
    /// A number, with its value when it is an integer that fits in a `u64`.
    Number(Option<u64>),
    Str(String),
    Array(Vec<Json>),
    /// An object's members, each key once.
    Object(Vec<(String, Json)>),
}

/// The value of the first member of `entries` named `key`.
pub open spec fn member_of(entries: Seq<(String, Json)>, key: Seq<char>) -> Option<Json>
    decreases entries.len(),
{
    if entries.len() == 0 {
        None
    } else if entries[0].0@ == key {
        Some(entries[0].1)
    } else {
        member_of(entries.drop_first(), key)
    }
}

/// `Value::get`: the member `key` of `j` when `j` is an object that has it.
pub open spec fn member(j: Json, key: Seq<char>) -> Option<Json> {
    match j.value {
        JsonValue::Object(entries) => member_of(entries@, key),
        _ => None,
    }
}

/// Whether `j` is an object.
pub open spec fn is_object(j: Json) -> bool {
    j.value is Object
}

/// `Option<&Value>::and_then(Value::as_str)`.
pub open spec fn str_of(j: Option<Json>) -> Option<Seq<char>> {
    match j {
        Some(x) => match x.value {
            JsonValue::Str(s) => Some(s@),
            _ => None,
        },
        None => None,
    }
}

/// Whether `j` is present and a non-empty string.
pub open spec fn nonempty_str(j: Option<Json>) -> bool {
    str_of(j) matches Some(s) && s.len() > 0
}

/// The position of the first member of `entries` named `key`.
fn member_index(entries: &Vec<(String, Json)>, key: &str) -> (r: Option<usize>)
    ensures
        r matches Some(i) ==> i < entries@.len() && member_of(entries@, key@) == Some(
            entries@[i as int].1,
        ),
        r is None ==> member_of(entries@, key@) is None,
{
    let mut i: usize = 0;
    assert(entries@.skip(0) == entries@);
    while i < entries.len()
        invariant
            i <= entries@.len(),
            member_of(entries@, key@) == member_of(entries@.skip(i as int), key@),
        decreases entries.len() - i,
    {
        let ghost rest = entries@.skip(i as int);
        assert(rest[0] == entries@[i as int]);
        if str_eq(entries[i].0.as_str(), key) {
            return Some(i);
        }
        assert(rest.drop_first() == entries@.skip(i + 1));
        i = i + 1;
    }
    None
}

/// `Value::get` for a string key.
pub fn get_member<'a>(j: &'a Json, key: &str) -> (r: Option<&'a Json>)
    ensures
        r matches Some(x) ==> member(*j, key@) == Some(*x),
        r is None ==> member(*j, key@) is None,
{
    match &j.value {
        JsonValue::Object(entries) => match member_index(entries, key) {
            Some(i) => Some(&entries[i].1),
            None => None,
        },
        _ => None,
    }
}

/// `Value::as_str` on an optional value.
fn as_str<'a>(j: Option<&'a Json>) -> (r: Option<&'a String>)
    ensures
        r matches Some(s) ==> str_of(opt_json(j)) == Some(s@),
        r is None ==> str_of(opt_json(j)) is None,
{
    match j {
        Some(x) => match &x.value {
            JsonValue::Str(s) => Some(s),
            _ => None,
        },
        None => None,
    }
}

/// The value behind an optional reference.
pub open spec fn opt_json(j: Option<&Json>) -> Option<Json> {
    match j {
        Some(x) => Some(*x),
        None => None,
    }
}

/// Whether the optional value is a string equal to `expected`.
fn str_is(j: Option<&Json>, expected: &str) -> (b: bool)
    ensures
        b == (str_of(opt_json(j)) == Some(expected@)),
{
    match as_str(j) {
        Some(s) => str_eq(s.as_str(), expected),
        None => false,
    }
}

/// The checks of an `initialize` result: an object with exactly the expected
/// `protocolVersion`, a `serverInfo` object with non-empty string `name` and `version`,
/// and a `capabilities` object, checked in that order.
pub open spec fn initialize_check(r: Json) -> Result<(), Seq<char>> {
    if !is_object(r) {
        Err("initialize result must be an object"@)
    } else if str_of(member(r, "protocolVersion"@)) != Some(PROTOCOL_VERSION@) {
        Err("MCP server protocolVersion must be exactly "@ + PROTOCOL_VERSION@)
    } else {
        match member(r, "serverInfo"@) {
            Some(info) if is_object(info) => if !nonempty_str(member(info, "name"@)) {
                Err("initialize result serverInfo.name must be a non-empty string"@)
            } else if !nonempty_str(member(info, "version"@)) {
                Err("initialize result serverInfo.version must be a non-empty string"@)
            } else if !(member(r, "capabilities"@) matches Some(c) && is_object(c)) {
                Err("initialize result capabilities must be an object"@)
            } else {
                Ok(())
            },
            _ => Err("initialize result serverInfo must be an object"@),
        }
    }
}

/// Checks the shape and protocol version of an `initialize` result.
pub fn validate_initialize_result(result: &Json) -> (r: Result<(), String>)
    ensures
        match initialize_check(*result) {
            Ok(()) => r is Ok,
            Err(e) => r matches Err(m) && m@ == e,
        },
{
    if !matches!(result.value, JsonValue::Object(_)) {
        return Err("initialize result must be an object".to_owned());
    }
    if !str_is(get_member(result, "protocolVersion"), PROTOCOL_VERSION) {
        return Err(concat("MCP server protocolVersion must be exactly ", PROTOCOL_VERSION));
    }
    let info = match get_member(result, "serverInfo") {
        Some(i) => if matches!(i.value, JsonValue::Object(_)) {
            i
        } else {
            return Err("initialize result serverInfo must be an object".to_owned());
        },
        None => return Err("initialize result serverInfo must be an object".to_owned()),
    };
    match as_str(get_member(info, "name")) {
        Some(s) => if s.as_str().is_empty() {
            return Err("initialize result serverInfo.name must be a non-empty string".to_owned());
        },
        None => return Err("initialize result serverInfo.name must be a non-empty string".to_owned()),
    }
    match as_str(get_member(info, "version")) {
        Some(s) => if s.as_str().is_empty() {
            return Err(
                "initialize result serverInfo.version must be a non-empty string".to_owned(),
            );
        },
        None => return Err(
            "initialize result serverInfo.version must be a non-empty string".to_owned(),
        ),
    }
    match get_member(result, "capabilities") {
        Some(c) => if !matches!(c.value, JsonValue::Object(_)) {
            return Err("initialize result capabilities must be an object".to_owned());
        },
        None => return Err("initialize result capabilities must be an object".to_owned()),
    }
    Ok(())
}

/// `compact_json`: the compact serialization of `j`, sanitized for a terminal.
pub open spec fn compact_text(j: Json) -> Seq<char> {
    sanitized(j.text@)
}

/// The compact serialization of a value, sanitized for a terminal.
pub fn compact_json(j: &Json) -> (s: String)
    ensures
        s@ == compact_text(*j),
{
    sanitize(j.text.as_str())
}

/// The text of one content item: it must have `type` `"text"` and a string `text`.
pub open spec fn item_text(item: Json) -> Result<Seq<char>, Seq<char>> {
    if str_of(member(item, "type"@)) != Some("text"@) {
        Err("tool result contains a non-text item"@)
    } else {
        match str_of(member(item, "text"@)) {
            Some(t) => Ok(t),
            None => Err("tool text item has no text"@),
        }
    }
}

/// The texts of all content items in order, or the first refusal.
pub open spec fn item_texts(items: Seq<Json>) -> Result<Seq<Seq<char>>, Seq<char>>
    decreases items.len(),
{
    if items.len() == 0 {
        Ok(seq![])
    } else {
        match item_texts(items.drop_last()) {
            Err(e) => Err(e),
            Ok(texts) => match item_text(items.last()) {
                Err(e) => Err(e),
                Ok(t) => Ok(texts.push(t)),
            },
        }
    }
}

/// The texts of a tool result's `content` array of at most `MAX_CONTENT_ITEMS` items.
pub open spec fn content_texts(r: Json) -> Result<Seq<Seq<char>>, Seq<char>> {
    match member(r, "content"@) {
        Some(c) => match c.value {
            JsonValue::Array(items) => if items.len() > MAX_CONTENT_ITEMS {
                Err("tool result has too many content items"@)
            } else {
                item_texts(items@)
            },
            _ => Err("tool result has no content array"@),
        },
        None => Err("tool result has no content array"@),
    }
}

/// The details of a failed tool call: its content, compactly serialized and sanitized.
pub open spec fn tool_error_details(r: Json) -> Seq<char> {
    match member(r, "content"@) {
        Some(c) => compact_text(c),
        None => "no details"@,
    }
}

/// The texts of a tool result: a present `isError` must be a boolean, and when true
/// the call failed; otherwise the texts of its content.
pub open spec fn tool_result_texts(r: Json) -> Result<Seq<Seq<char>>, Seq<char>> {
    match member(r, "isError"@) {
        Some(flag) => match flag.value {
            JsonValue::Bool(true) => Err("search tool error: "@ + tool_error_details(r)),
            JsonValue::Bool(false) => content_texts(r),
            _ => Err("tool result isError must be a boolean"@),
        },
        None => content_texts(r),
    }
}

/// The values of a sequence of strings.
pub open spec fn texts_view(v: Seq<String>) -> Seq<Seq<char>> {
    v.map_values(|s: String| s@)
}

proof fn lemma_item_texts_failure_stays(items: Seq<Json>, k: int)
    requires
        0 <= k <= items.len(),
        item_texts(items.take(k)) is Err,
    ensures
        item_texts(items) == item_texts(items.take(k)),
    decreases items.len() - k,
{
    if k < items.len() {
        assert(items.drop_last().take(k) == items.take(k));
        lemma_item_texts_failure_stays(items.drop_last(), k);
    } else {
        assert(items.take(k) == items);
    }
}

/// Checks a `tools/call` result and returns the text of each content item.
pub fn tool_texts(result: &Json) -> (r: Result<Vec<String>, String>)
    ensures
        match tool_result_texts(*result) {
            Ok(t) => r matches Ok(v) && texts_view(v@) == t,
            Err(e) => r matches Err(m) && m@ == e,
        },
{
    match get_member(result, "isError") {
        Some(flag) => match flag.value {
            JsonValue::Bool(true) => {
                let details = match get_member(result, "content") {
                    Some(c) => compact_json(c),
                    None => "no details".to_owned(),
                };
                return Err(concat("search tool error: ", details.as_str()));
            },
            JsonValue::Bool(false) => {},
            _ => return Err("tool result isError must be a boolean".to_owned()),
        },
        None => {},
    }
    let items = match get_member(result, "content") {
        Some(c) => match &c.value {
            JsonValue::Array(items) => items,
            _ => return Err("tool result has no content array".to_owned()),
        },
        None => return Err("tool result has no content array".to_owned()),
    };
    if items.len() > MAX_CONTENT_ITEMS {
        return Err("tool result has too many content items".to_owned());
    }
    let ghost all = items@;
    let mut texts: Vec<String> = Vec::new();
    let mut i: usize = 0;
    assert(all.take(0) =~= seq![]);
    assert(texts_view(texts@) =~= seq![]);
    while i < items.len()
        invariant
            i <= items.len(),
            all == items@,
            tool_result_texts(*result) == item_texts(all),
            item_texts(all.take(i as int)) == Ok::<Seq<Seq<char>>, Seq<char>>(texts_view(texts@)),
        decreases items.len() - i,
    {
        let item = &items[i];
        assert(all.take(i + 1).drop_last() == all.take(i as int));
        assert(all.take(i + 1).last() == *item);
        if !str_is(get_member(item, "type"), "text") {
            proof {
                lemma_item_texts_failure_stays(all, i + 1);
            }
            return Err("tool result contains a non-text item".to_owned());
        }
        match as_str(get_member(item, "text")) {
            Some(t) => {
                let ghost before = texts@;
                texts.push(t.clone());
                assert(texts_view(texts@) =~= texts_view(before).push(t@));
            },
            None => {
                proof {
                    lemma_item_texts_failure_stays(all, i + 1);
                }
                return Err("tool text item has no text".to_owned());
            },
        }
        i = i + 1;
    }
    assert(all.take(items.len() as int) == all);
    Ok(texts)
}

/// `Value::as_u64` of a member id.
pub open spec fn u64_of(j: Json) -> Option<u64> {
    match j.value {
        JsonValue::Number(n) => n,
        _ => None,
    }
}

/// What one message of a response does, given the result found so far: a
/// notification (a non-empty string `method`, no `id`, no `result` or `error`) is
/// skipped; a response must carry the expected `id` and exactly one of `result` and
/// `error`, and an `error` refuses the exchange; anything else is refused.
pub open spec fn message_step(m: Json, id: u64, found: Option<Json>) -> Result<Option<Json>, Seq<char>> {
    if !is_object(m) {
        Err("MCP message must be a JSON object"@)
    } else if str_of(member(m, "jsonrpc"@)) != Some("2.0"@) {
        Err("invalid JSON-RPC version in response"@)
    } else {
        match (member(m, "method"@), member(m, "id"@)) {
            (Some(method), None) => if !nonempty_str(Some(method)) {
                Err("invalid JSON-RPC notification method"@)
            } else if member(m, "result"@) is Some || member(m, "error"@) is Some {
                Err("invalid JSON-RPC notification payload"@)
            } else {
                Ok(found)
            },
            (Some(_), Some(_)) => Err("unsupported server JSON-RPC request"@),
            (None, Some(i)) => if u64_of(i) != Some(id) {
                Err("JSON-RPC response id did not match request"@)
            } else {
                match member(m, "error"@) {
                    Some(e) => if member(m, "result"@) is Some {
                        Err("MCP response has both result and error"@)
                    } else {
                        Err("MCP JSON-RPC error: "@ + compact_text(e))
                    },
                    None => match member(m, "result"@) {
                        None => Err("MCP response has neither result nor error"@),
                        Some(r) => if found is Some {
                            Err("MCP response contained multiple results for one request"@)
                        } else {
                            Ok(Some(r))
                        },
                    },
                }
            },
            (None, None) => Err("MCP message has neither method nor id"@),
        }
    }
}

/// The result found in `messages`, in order, or the first refusal.
pub open spec fn scan_messages(messages: Seq<Json>, id: u64) -> Result<Option<Json>, Seq<char>>
    decreases messages.len(),
{
    if messages.len() == 0 {
        Ok(None)
    } else {
        match scan_messages(messages.drop_last(), id) {
            Err(e) => Err(e),
            Ok(found) => message_step(messages.last(), id, found),
        }
    }
}

/// The one result that `messages` carry for the request with `expected_id`.
pub open spec fn response_result(messages: Seq<Json>, expected_id: Option<u64>) -> Result<
    Json,
    Seq<char>,
> {
    match expected_id {
        None => Err("response id was not expected"@),
        Some(id) => match scan_messages(messages, id) {
            Err(e) => Err(e),
            Ok(None) => Err("MCP response contained no response for request"@),
            Ok(Some(r)) => Ok(r),
        },
    }
}

proof fn lemma_scan_failure_stays(messages: Seq<Json>, id: u64, k: int)
    requires
        0 <= k <= messages.len(),
        scan_messages(messages.take(k), id) is Err,
    ensures
        scan_messages(messages, id) == scan_messages(messages.take(k), id),
    decreases messages.len() - k,
{
    if k < messages.len() {
        assert(messages.drop_last().take(k) == messages.take(k));
        lemma_scan_failure_stays(messages.drop_last(), id, k);
    } else {
        assert(messages.take(k) == messages);
    }
}

/// Checks one message against the expected id, given the result found so far;
/// `Ok(true)` when it is the response that carries the result.
fn check_message(m: &Json, id: u64, found: Option<&Json>) -> (r: Result<bool, String>)
    ensures
        match message_step(*m, id, opt_json(found)) {
            Err(e) => r matches Err(x) && x@ == e,
            Ok(f) => r matches Ok(b) && (b ==> found is None && f is Some && f == member(*m, "result"@)) && (
            !b ==> f == opt_json(found)),
        },
{
    if !matches!(m.value, JsonValue::Object(_)) {
        return Err("MCP message must be a JSON object".to_owned());
    }
    if !str_is(get_member(m, "jsonrpc"), "2.0") {
        return Err("invalid JSON-RPC version in response".to_owned());
    }
    match (get_member(m, "method"), get_member(m, "id")) {
        (Some(method), None) => {
            let ok_method = match as_str(Some(method)) {
                Some(s) => !s.as_str().is_empty(),
                None => false,
            };
            if !ok_method {
                return Err("invalid JSON-RPC notification method".to_owned());
            }
            if get_member(m, "result").is_some() || get_member(m, "error").is_some() {
                return Err("invalid JSON-RPC notification payload".to_owned());
            }
            Ok(false)
        },
        (Some(_), Some(_)) => Err("unsupported server JSON-RPC request".to_owned()),
        (None, Some(i)) => {
            let matches_id = match &i.value {
                JsonValue::Number(Some(n)) => *n == id,
                _ => false,
            };
            if !matches_id {
                return Err("JSON-RPC response id did not match request".to_owned());
            }
            match get_member(m, "error") {
                Some(e) => {
                    if get_member(m, "result").is_some() {
                        return Err("MCP response has both result and error".to_owned());
                    }
                    let details = compact_json(e);
                    Err(concat("MCP JSON-RPC error: ", details.as_str()))
                },
                None => {
                    if get_member(m, "result").is_none() {
                        return Err("MCP response has neither result nor error".to_owned());
                    }
                    if found.is_some() {
                        return Err(
                            "MCP response contained multiple results for one request".to_owned(),
                        );
                    }
                    Ok(true)
                },
            }
        },
        (None, None) => Err("MCP message has neither method nor id".to_owned()),
    }
}

/// Selects the response to the request with `expected_id` among the messages of a
/// reply, skipping notifications, and returns its result.
pub fn check_response(messages: Vec<Json>, expected_id: Option<u64>) -> (r: Result<Json, String>)
    ensures
        match response_result(messages@, expected_id) {
            Ok(x) => r matches Ok(y) && y == x,
            Err(e) => r matches Err(m) && m@ == e,
        },
{
    let id = match expected_id {
        None => return Err("response id was not expected".to_owned()),
        Some(id) => id,
    };
    let ghost all = messages@;
    let mut found: Option<usize> = None;
    let mut i: usize = 0;
    assert(all.take(0) =~= seq![]);
    while i < messages.len()
        invariant
            i <= messages.len(),
            all == messages@,
            expected_id == Some(id),
            scan_messages(all.take(i as int), id) == Ok::<Option<Json>, Seq<char>>(
                match found {
                    Some(k) => member(all[k as int], "result"@),
                    None => None,
                },
            ),
            found matches Some(k) ==> k < i && member(all[k as int], "result"@) is Some,
        decreases messages.len() - i,
    {
        assert(all.take(i + 1).drop_last() == all.take(i as int));
        assert(all.take(i + 1).last() == messages@[i as int]);
        let prior = match found {
            Some(k) => get_member(&messages[k], "result"),
            None => None,
        };
        match check_message(&messages[i], id, prior) {
            Err(e) => {
                proof {
                    lemma_scan_failure_stays(all, id, i + 1);
                }
                return Err(e);
            },
            Ok(is_result) => {
                if is_result {
                    found = Some(i);
                }
            },
        }
        i = i + 1;
    }
    assert(all.take(messages.len() as int) == all);
    let k = match found {
        None => return Err("MCP response contained no response for request".to_owned()),
        Some(k) => k,
    };
    let mut messages = messages;
    let message = messages.swap_remove(k);
    match message.value {
        JsonValue::Object(mut entries) => match member_index(&entries, "result") {
            Some(j) => Ok(entries.swap_remove(j).1),
            None => Err("MCP response has neither result nor error".to_owned()),
        },
        _ => Err("MCP message must be a JSON object".to_owned()),
    }
}

/// `s` with every CRLF pair and every other CR turned into a single LF, as
/// `replace("\r\n", "\n").replace('\r', "\n")` leaves it.
pub open spec fn normalize_newlines(s: Seq<char>) -> Seq<char>
    decreases s.len(),
{
    if s.len() == 0 {
        seq![]
    } else if s.len() >= 2 && s[0] == '\r' && s[1] == '\n' {
        seq!['\n'] + normalize_newlines(s.skip(2))
    } else if s[0] == '\r' {
        seq!['\n'] + normalize_newlines(s.drop_first())
    } else {
        seq![s[0]] + normalize_newlines(s.drop_first())
    }
}

/// The pieces of `s` between the blank lines `\n\n` (leftmost, not overlapping), given
/// the unfinished piece `cur`, as `str::split("\n\n")` yields them.
pub open spec fn records_from(s: Seq<char>, cur: Seq<char>) -> Seq<Seq<char>>
    decreases s.len(),
{
    if s.len() == 0 {
        seq![cur]
    } else if s.len() >= 2 && s[0] == '\n' && s[1] == '\n' {
        seq![cur] + records_from(s.skip(2), seq![])
    } else {
        records_from(s.drop_first(), cur.push(s[0]))
    }
}

/// The data of an SSE line `data:<value>`, without one space after the colon.
pub open spec fn data_of(line: Seq<char>) -> Option<Seq<char>> {
    match strip_prefix(line, "data:"@) {
        Some(d) => Some(
            match strip_prefix(d, " "@) {
                Some(x) => x,
                None => d,
            },
        ),
        None => None,
    }
}

/// The data of every data line of `ls`, in order.
pub open spec fn data_lines(ls: Seq<Seq<char>>) -> Seq<Seq<char>>
    decreases ls.len(),
{
    if ls.len() == 0 {
        seq![]
    } else {
        match data_of(ls.last()) {
            Some(d) => data_lines(ls.drop_last()).push(d),
            None => data_lines(ls.drop_last()),
        }
    }
}

/// The JSON text of one SSE record: its data lines joined by `\n`, unless it has none or
/// its data is the `[DONE]` marker.
pub open spec fn record_payload(record: Seq<char>) -> Option<Seq<char>> {
    let d = data_lines(lines(record));
    if d.len() == 0 {
        None
    } else if join(d, seq!['\n']) == "[DONE]"@ {
        None
    } else {
        Some(join(d, seq!['\n']))
    }
}

/// The payloads of all records, in order.
pub open spec fn payloads(records: Seq<Seq<char>>) -> Seq<Seq<char>>
    decreases records.len(),
{
    if records.len() == 0 {
        seq![]
    } else {
        match record_payload(records.last()) {
            Some(p) => payloads(records.drop_last()).push(p),
            None => payloads(records.drop_last()),
        }
    }
}

/// The JSON texts that an SSE body carries, or the refusal of a body that carries none.
pub open spec fn sse_payloads(input: Seq<char>) -> Result<Seq<Seq<char>>, Seq<char>> {
    let p = payloads(records_from(normalize_newlines(input), seq![]));
    if p.len() == 0 {
        Err("SSE response contained no JSON messages"@)
    } else {
        Ok(p)
    }
}

fn normalize_chars(s: &Vec<char>) -> (out: Vec<char>)
    ensures
        out@ == normalize_newlines(s@),
{
    let mut out: Vec<char> = Vec::new();
    let mut i: usize = 0;
    assert(s@.skip(0) == s@);
    while i < s.len()
        invariant
            i <= s.len(),
            out@ + normalize_newlines(s@.skip(i as int)) == normalize_newlines(s@),
        decreases s.len() - i,
    {
        let ghost rest = s@.skip(i as int);
        assert(rest[0] == s@[i as int]);
        if s[i] == '\r' && i + 1 < s.len() && s[i + 1] == '\n' {
            assert(rest[1] == s@[i + 1]);
            assert(rest.skip(2) == s@.skip(i + 2));
            let ghost before = out@;
            out.push('\n');
            assert(before + (seq!['\n'] + normalize_newlines(rest.skip(2))) == out@
                + normalize_newlines(s@.skip(i + 2)));
            i = i + 2;
        } else {
            assert(rest.drop_first() == s@.skip(i + 1));
            let ghost before = out@;
            let c = if s[i] == '\r' { '\n' } else { s[i] };
            out.push(c);
            assert(before + (seq![c] + normalize_newlines(rest.drop_first())) == out@
                + normalize_newlines(s@.skip(i + 1)));
            i = i + 1;
        }
    }
    assert(normalize_newlines(s@.skip(i as int)) =~= seq![]);
    assert(out@ + seq![] =~= out@);
    out
}

fn split_records(s: &Vec<char>) -> (out: Vec<Vec<char>>)
    ensures
        views(out@) == records_from(s@, seq![]),
{
    let mut out: Vec<Vec<char>> = Vec::new();
    let mut cur: Vec<char> = Vec::new();
    let mut i: usize = 0;
    assert(s@.skip(0) == s@);
    while i < s.len()
        invariant
            i <= s.len(),
            views(out@) + records_from(s@.skip(i as int), cur@) == records_from(s@, seq![]),
        decreases s.len() - i,
    {
        let ghost rest = s@.skip(i as int);
        assert(rest[0] == s@[i as int]);
        if s[i] == '\n' && i + 1 < s.len() && s[i + 1] == '\n' {
            assert(rest[1] == s@[i + 1]);
            assert(rest.skip(2) == s@.skip(i + 2));
            let ghost before = views(out@);
            let ghost piece = cur@;
            out.push(cur);
            assert(views(out@) == before.push(piece));
            assert(before + (seq![piece] + records_from(s@.skip(i + 2), seq![]))
                == before.push(piece) + records_from(s@.skip(i + 2), seq![]));
            cur = Vec::new();
            assert(cur@ == Seq::<char>::empty());
            i = i + 2;
        } else {
            assert(rest.drop_first() == s@.skip(i + 1));
            cur.push(s[i]);
            i = i + 1;
        }
    }
    let ghost before = views(out@);
    let ghost piece = cur@;
    out.push(cur);
    assert(views(out@) == before.push(piece));
    out
}

fn payload_of(record: &Vec<char>) -> (r: Option<Vec<char>>)
    ensures
        r matches Some(p) ==> record_payload(record@) == Some(p@),
        r is None ==> record_payload(record@) is None,
{
    let ls = lines_of(record);
    let ghost lv = views(ls@);
    let data_prefix = chars_of("data:");
    let space = chars_of(" ");
    let mut data: Vec<Vec<char>> = Vec::new();
    let mut i: usize = 0;
    assert(lv.take(0) =~= seq![]);
    assert(views(data@) =~= seq![]);
    while i < ls.len()
        invariant
            i <= ls.len(),
            lv == views(ls@),
            data_prefix@ == "data:"@,
            space@ == " "@,
            views(data@) == data_lines(lv.take(i as int)),
        decreases ls.len() - i,
    {
        assert(lv.take(i + 1).drop_last() == lv.take(i as int));
        assert(lv.take(i + 1).last() == ls@[i as int]@);
        match strip_prefix_chars(&ls[i], &data_prefix) {
            Some(d) => {
                let value = match strip_prefix_chars(&d, &space) {
                    Some(x) => x,
                    None => d,
                };
                let ghost before = views(data@);
                data.push(value);
                assert(views(data@) == before.push(value@));
            },
            None => {},
        }
        i = i + 1;
    }
    assert(lv.take(ls.len() as int) == lv);
    if data.len() == 0 {
        return None;
    }
    let mut joined: Vec<char> = Vec::new();
    let mut k: usize = 0;
    let ghost dv = views(data@);
    while k < data.len()
        invariant
            0 < data.len(),
            k <= data.len(),
            dv == views(data@),
            k > 0 ==> join(dv.subrange(0, k as int), seq!['\n']) == joined@,
            k == 0 ==> joined@ == Seq::<char>::empty(),
        decreases data.len() - k,
    {
        let ghost before = joined@;
        if k > 0 {
            joined.push('\n');
        }
        let mut piece = data[k].clone();
        joined.append(&mut piece);
        proof {
            lemma_join_push(dv.subrange(0, k as int), dv[k as int]);
            assert(dv.subrange(0, k + 1) == dv.subrange(0, k as int).push(dv[k as int]));
        }
        k = k + 1;
    }
    assert(dv.subrange(0, data.len() as int) == dv);
    if same_chars(&joined, &chars_of("[DONE]")) {
        None
    } else {
        Some(joined)
    }
}

proof fn lemma_join_push(parts: Seq<Seq<char>>, p: Seq<char>)
    ensures
        parts.len() == 0 ==> join(parts.push(p), seq!['\n']) == p,
        parts.len() > 0 ==> join(parts.push(p), seq!['\n']) == join(parts, seq!['\n']) + seq!['\n'] + p,
    decreases parts.len(),
{
    if parts.len() == 0 {
        assert(parts.push(p).len() == 1);
    } else if parts.len() == 1 {
        assert(parts.push(p).drop_first() =~= seq![p]);
        assert(join(seq![p], seq!['\n']) == p);
    } else {
        lemma_join_push(parts.drop_first(), p);
        assert(parts.push(p).drop_first() =~= parts.drop_first().push(p));
        assert(parts[0] + seq!['\n'] + (join(parts.drop_first(), seq!['\n']) + seq!['\n'] + p)
            =~= parts[0] + seq!['\n'] + join(parts.drop_first(), seq!['\n']) + seq!['\n'] + p);
    }
}

/// Decodes the records of an SSE body and returns the JSON text of each message: the
/// data lines of a record, joined by `\n`; records without data and the `[DONE]`
/// marker are skipped. A body that carries no message is refused.
pub fn parse_sse(input: &str) -> (r: Result<Vec<String>, String>)
    ensures
        match sse_payloads(input@) {
            Ok(p) => r matches Ok(v) && texts_view(v@) == p,
            Err(e) => r matches Err(m) && m@ == e,
        },
{
    let normalized = normalize_chars(&chars_of(input));
    let records = split_records(&normalized);
    let ghost rv = views(records@);
    let mut values: Vec<String> = Vec::new();
    let mut i: usize = 0;
    assert(rv.take(0) =~= seq![]);
    assert(texts_view(values@) =~= seq![]);
    while i < records.len()
        invariant
            i <= records.len(),
            rv == views(records@),
            texts_view(values@) == payloads(rv.take(i as int)),
        decreases records.len() - i,
    {
        assert(rv.take(i + 1).drop_last() == rv.take(i as int));
        assert(rv.take(i + 1).last() == records@[i as int]@);
        match payload_of(&records[i]) {
            Some(p) => {
                let ghost before = values@;
                let text = string_from_chars(&p);
                values.push(text);
                assert(texts_view(values@) =~= texts_view(before).push(p@));
            },
            None => {},
        }
        i = i + 1;
    }
    assert(rv.take(records.len() as int) == rv);
    if values.len() == 0 {
        return Err("SSE response contained no JSON messages".to_owned());
    }
    Ok(values)
}

/// The refusal of a session id over `MAX_SESSION_ID_BYTES` bytes.
pub open spec fn session_id_check(id: Seq<char>) -> Result<(), Seq<char>> {
    if encode_utf8(id).len() > MAX_SESSION_ID_BYTES {
        Err("server supplied an oversized MCP session id"@)
    } else {
        Ok(())
    }
}

/// Refuses an `Mcp-Session-Id` header value longer than `MAX_SESSION_ID_BYTES` bytes.
pub fn check_session_id(id: &str) -> (r: Result<(), String>)
    ensures
        match session_id_check(id@) {
            Ok(()) => r is Ok,
            Err(e) => r matches Err(m) && m@ == e,
        },
{
    if utf8_len(id) > MAX_SESSION_ID_BYTES {
        Err("server supplied an oversized MCP session id".to_owned())
    } else {
        Ok(())
    }
}

/// Whether an HTTP status is a success (2xx).
pub fn is_success_status(status: u16) -> (b: bool)
    ensures
        b == (200 <= status < 300),
{
    200 <= status && status < 300
}

/// The refusal of a body of more than `MAX_BODY_BYTES` bytes.
pub open spec fn body_size_check(len: nat) -> Result<(), Seq<char>> {
    if len > MAX_BODY_BYTES {
        Err("MCP response exceeds 2 MiB limit"@)
    } else {
        Ok(())
    }
}

/// Refuses a response body of more than `MAX_BODY_BYTES` bytes.
pub fn check_body_size(len: usize) -> (r: Result<(), String>)
    ensures
        match body_size_check(len as nat) {
            Ok(()) => r is Ok,
            Err(e) => r matches Err(m) && m@ == e,
        },
{
    if len > MAX_BODY_BYTES {
        Err("MCP response exceeds 2 MiB limit".to_owned())
    } else {
        Ok(())
    }
}

/// `std::str::from_utf8`: the text that `bytes` encode when they are valid UTF-8 (as
/// `valid_utf8` defines it), and nothing otherwise.
#[verifier::external_body]
fn utf8_text(bytes: &[u8]) -> (r: Option<&str>)
    ensures
        r is Some <==> valid_utf8(bytes@),
        r matches Some(s) ==> s@ == decode_utf8(bytes@),
{
    std::str::from_utf8(bytes).ok()
}

/// How the body of a reply is read.
pub enum ReplyBody {
    /// The reply to a notification: it carries no response, and its body is not read.
    Ignored,
    /// The JSON texts of the messages of an SSE body, in order.
    Events(Vec<String>),
    /// A plain body: one JSON text.
    Single(String),
}

/// The value of a [`ReplyBody`].
pub enum ReplyBodyView {
    Ignored,
    Events(Seq<Seq<char>>),
    Single(Seq<char>),
}

impl View for ReplyBody {
    type V = ReplyBodyView;

    open spec fn view(&self) -> ReplyBodyView {
        match self {
            ReplyBody::Ignored => ReplyBodyView::Ignored,
            ReplyBody::Events(v) => ReplyBodyView::Events(texts_view(v@)),
            ReplyBody::Single(s) => ReplyBodyView::Single(s@),
        }
    }
}

/// What a reply body yields for a request with `expected_id`: a body over
/// `MAX_BODY_BYTES` bytes or not in UTF-8 is refused; a notification's body is ignored;
/// an SSE body yields its messages; any other body is one JSON text.
pub open spec fn reply_body_of(expected_id: Option<u64>, is_sse: bool, body: Seq<u8>) -> Result<
    ReplyBodyView,
    Seq<char>,
> {
    if body.len() > MAX_BODY_BYTES {
        Err("MCP response exceeds 2 MiB limit"@)
    } else if !valid_utf8(body) {
        Err("MCP response is not UTF-8"@)
    } else if expected_id is None {
        Ok(ReplyBodyView::Ignored)
    } else if is_sse {
        match sse_payloads(decode_utf8(body)) {
            Ok(p) => Ok(ReplyBodyView::Events(p)),
            Err(e) => Err(e),
        }
    } else {
        Ok(ReplyBodyView::Single(decode_utf8(body)))
    }
}

/// Reads the body of a reply to the request with `expected_id` (`None` for a
/// notification); `is_sse` tells whether its content type announced an SSE stream.
pub fn read_reply_body(expected_id: Option<u64>, is_sse: bool, body: &[u8]) -> (r: Result<
    ReplyBody,
    String,
>)
    ensures
        match reply_body_of(expected_id, is_sse, body@) {
            Ok(b) => r matches Ok(x) && x@ == b,
            Err(e) => r matches Err(m) && m@ == e,
        },
{
    match check_body_size(body.len()) {
        Err(e) => return Err(e),
        Ok(()) => {},
    }
    let text = match utf8_text(body) {
        Some(t) => t,
        None => return Err("MCP response is not UTF-8".to_owned()),
    };
    if expected_id.is_none() {
        return Ok(ReplyBody::Ignored);
    }
    if is_sse {
        match parse_sse(text) {
            Ok(texts) => Ok(ReplyBody::Events(texts)),
            Err(e) => Err(e),
        }
    } else {
        Ok(ReplyBody::Single(text.to_owned()))
    }
}

/// The checks of a reply's head, in order: an `Mcp-Session-Id` value over
/// `MAX_SESSION_ID_BYTES` bytes, then a status outside 2xx (reported with its status
/// line).
pub open spec fn reply_head_check(session_id: Option<Seq<char>>, status: u16, status_line: Seq<char>) -> Result<
    (),
    Seq<char>,
> {
    match session_id {
        Some(id) if session_id_check(id) is Err => session_id_check(id),
        _ => if 200 <= status < 300 {
            Ok(())
        } else {
            Err("MCP server returned HTTP "@ + status_line)
        },
    }
}

/// Checks the head of a reply: its `Mcp-Session-Id` value, if any, then its status;
/// `status_line` is the status as the HTTP library writes it (code and reason).
pub fn check_reply_head(session_id: Option<&str>, status: u16, status_line: &str) -> (r: Result<(), String>)
    ensures
        match reply_head_check(
            match session_id {
                Some(s) => Some(s@),
                None => None,
            },
            status,
            status_line@,
        ) {
            Ok(()) => r is Ok,
            Err(e) => r matches Err(m) && m@ == e,
        },
{
    match session_id {
        Some(id) => match check_session_id(id) {
            Err(e) => return Err(e),
            Ok(()) => {},
        },
        None => {},
    }
    if is_success_status(status) {
        Ok(())
    } else {
        Err(concat("MCP server returned HTTP ", status_line))
    }
}

/// The session id kept after a reply: the reply's `Mcp-Session-Id` value when it has
/// one that `session_id_check` accepts, else the one kept before.
pub open spec fn retained_id(current: Option<Seq<char>>, header: Option<Seq<char>>) -> Option<
    Seq<char>,
> {
    match header {
        Some(h) => if session_id_check(h) is Ok {
            Some(h)
        } else {
            current
        },
        None => current,
    }
}

/// The value of an optional string slice.
pub open spec fn opt_str_view(s: Option<&str>) -> Option<Seq<char>> {
    match s {
        Some(x) => Some(x@),
        None => None,
    }
}

/// The session id to send with later requests, given the one kept so far and the
/// `Mcp-Session-Id` value of a reply, if it had one.
pub fn retained_session_id(current: Option<String>, header: Option<&str>) -> (kept: Option<String>)
    ensures
        opt_view(kept) == retained_id(opt_view(current), opt_str_view(header)),
{
    match header {
        Some(h) => match check_session_id(h) {
            Ok(()) => Some(h.to_owned()),
            Err(_) => current,
        },
        None => current,
    }
}

/// `char::to_ascii_lowercase`.
pub open spec fn ascii_lower(c: char) -> char {
    if 'A' <= c && c <= 'Z' {
        ((c as u32) + 32) as char
    } else {
        c
    }
}

/// `str::eq_ignore_ascii_case`: equal once ASCII letters are lowercased.
pub open spec fn eq_ignore_ascii_case(a: Seq<char>, b: Seq<char>) -> bool {
    a.len() == b.len() && forall|i: int| 0 <= i < a.len() ==> ascii_lower(#[trigger] a[i]) == ascii_lower(b[i])
}

/// The text of `s` before its first `;` (all of `s` when it has none).
pub open spec fn before_semicolon(s: Seq<char>) -> Seq<char>
    decreases s.len(),
{
    if s.len() == 0 {
        seq![]
    } else if s[0] == ';' {
        seq![]
    } else {
        seq![s[0]] + before_semicolon(s.drop_first())
    }
}

/// Whether a `Content-Type` value names `text/event-stream`: its media type (before any
/// `;` parameter), trimmed, matches it ignoring ASCII case.
pub open spec fn names_event_stream(content_type: Seq<char>) -> bool {
    eq_ignore_ascii_case(trim(before_semicolon(content_type)), "text/event-stream"@)
}

fn to_ascii_lower(c: char) -> (d: char)
    ensures
        d == ascii_lower(c),
{
    if 'A' <= c && c <= 'Z' {
        ((c as u8) + 32) as char
    } else {
        c
    }
}

/// Whether a `Content-Type` header value announces an SSE body.
pub fn is_event_stream(content_type: &str) -> (b: bool)
    ensures
        b == names_event_stream(content_type@),
{
    let chars = chars_of(content_type);
    let mut head: Vec<char> = Vec::new();
    let mut i: usize = 0;
    assert(chars@.skip(0) == chars@);
    while i < chars.len() && chars[i] != ';'
        invariant
            i <= chars.len(),
            head@ + before_semicolon(chars@.skip(i as int)) == before_semicolon(chars@),
        decreases chars.len() - i,
    {
        let ghost rest = chars@.skip(i as int);
        assert(rest[0] == chars@[i as int]);
        assert(rest.drop_first() == chars@.skip(i + 1));
        let ghost before = head@;
        head.push(chars[i]);
        assert(before + (seq![chars@[i as int]] + before_semicolon(chars@.skip(i + 1))) == head@
            + before_semicolon(chars@.skip(i + 1)));
        i = i + 1;
    }
    assert(before_semicolon(chars@.skip(i as int)) =~= seq![]) by {
        if i < chars.len() {
            assert(chars@.skip(i as int)[0] == chars@[i as int]);
        }
    }
    assert(head@ + seq![] =~= head@);
    let trimmed = trim_chars(&head);
    let target = chars_of("text/event-stream");
    if trimmed.len() != target.len() {
        return false;
    }
    let mut k: usize = 0;
    while k < trimmed.len()
        invariant
            k <= trimmed.len() == target.len(),
            trimmed@ == trim(before_semicolon(content_type@)),
            target@ == "text/event-stream"@,
            forall|j: int| 0 <= j < k ==> ascii_lower(#[trigger] trimmed@[j]) == ascii_lower(target@[j]),
        decreases trimmed.len() - k,
    {
        if to_ascii_lower(trimmed[k]) != to_ascii_lower(target[k]) {
            assert(!eq_ignore_ascii_case(trimmed@, target@));
            return false;
        }
        k = k + 1;
    }
    true
}

/// Whether a content item is a text item: `type` is `"text"` and `text` is a string.
pub open spec fn is_text_item(item: Json) -> bool {
    str_of(member(item, "type"@)) == Some("text"@) && str_of(member(item, "text"@)) is Some
}

/// The items of a tool result's `content` array, when it has one.
pub open spec fn content_items(r: Json) -> Option<Seq<Json>> {
    match member(r, "content"@) {
        Some(c) => match c.value {
            JsonValue::Array(items) => Some(items@),
            _ => None,
        },
        None => None,
    }
}

/// Whether a present `isError` flag is `false`.
pub open spec fn not_flagged_error(r: Json) -> bool {
    match member(r, "isError"@) {
        Some(flag) => flag.value == JsonValue::Bool(false),
        None => true,
    }
}

proof fn lemma_item_texts_exact(items: Seq<Json>)
    ensures
        item_texts(items) is Ok <==> forall|i: int|
            0 <= i < items.len() ==> is_text_item(#[trigger] items[i]),
        item_texts(items) matches Ok(t) ==> t.len() == items.len() && forall|i: int|
            0 <= i < items.len() ==> t[i] == str_of(member(#[trigger] items[i], "text"@))->0,
    decreases items.len(),
{
    if items.len() > 0 {
        let init = items.drop_last();
        lemma_item_texts_exact(init);
        assert forall|i: int| 0 <= i < init.len() implies init[i] == items[i] by {}
        if !(forall|i: int| 0 <= i < init.len() ==> is_text_item(#[trigger] init[i])) {
            let i = choose|i: int| 0 <= i < init.len() && !is_text_item(#[trigger] init[i]);
            assert(!is_text_item(items[i]));
        }
        if item_texts(items) is Ok {
            assert(is_text_item(items[items.len() - 1]));
        }
    }
}

/// A tool result yields its texts exactly when a present `isError` is `false`, its
/// `content` is an array of at most `MAX_CONTENT_ITEMS` items, and every item is a text
/// item; the texts are then the items' `text` strings, in order.
pub proof fn lemma_tool_result_success(r: Json)
    ensures
        tool_result_texts(r) is Ok <==> (not_flagged_error(r) && (content_items(r) matches Some(
            items,
        ) && items.len() <= MAX_CONTENT_ITEMS && forall|i: int|
            0 <= i < items.len() ==> is_text_item(#[trigger] items[i]))),
        tool_result_texts(r) matches Ok(t) ==> (content_items(r) matches Some(items) && t.len()
            == items.len() && forall|i: int|
            0 <= i < items.len() ==> t[i] == str_of(member(#[trigger] items[i], "text"@))->0),
{
    if let Some(items) = content_items(r) {
        lemma_item_texts_exact(items);
    }
}

/// Whether `m` is a notification that a reply may carry: a JSON-RPC 2.0 object with a
/// non-empty string `method`, and no `id`, `result` or `error`.
pub open spec fn is_notification(m: Json) -> bool {
    &&& is_object(m)
    &&& str_of(member(m, "jsonrpc"@)) == Some("2.0"@)
    &&& nonempty_str(member(m, "method"@))
    &&& member(m, "id"@) is None
    &&& member(m, "result"@) is None
    &&& member(m, "error"@) is None
}

/// Whether `m` answers the request with `id`: a JSON-RPC 2.0 object with no `method`,
/// that `id`, a `result` and no `error`.
pub open spec fn is_answer(m: Json, id: u64) -> bool {
    &&& is_object(m)
    &&& str_of(member(m, "jsonrpc"@)) == Some("2.0"@)
    &&& member(m, "method"@) is None
    &&& member(m, "id"@) matches Some(i) && u64_of(i) == Some(id)
    &&& member(m, "error"@) is None
    &&& member(m, "result"@) is Some
}

/// Whether message `k` of `ms` is the one answer to the request with `id`, every other
/// message being a notification.
pub open spec fn sole_answer(ms: Seq<Json>, id: u64, k: int) -> bool {
    &&& 0 <= k < ms.len()
    &&& is_answer(ms[k], id)
    &&& forall|j: int| 0 <= j < ms.len() && j != k ==> is_notification(#[trigger] ms[j])
}

proof fn lemma_message_step_exact(m: Json, id: u64, found: Option<Json>)
    ensures
        is_notification(m) ==> message_step(m, id, found) == Ok::<Option<Json>, Seq<char>>(found),
        is_answer(m, id) && found is None ==> message_step(m, id, found) == Ok::<
            Option<Json>,
            Seq<char>,
        >(member(m, "result"@)),
        !is_notification(m) && !(is_answer(m, id) && found is None) ==> message_step(
            m,
            id,
            found,
        ) is Err,
{
}

proof fn lemma_scan_exact(ms: Seq<Json>, id: u64)
    ensures
        (scan_messages(ms, id) == Ok::<Option<Json>, Seq<char>>(None)) <==> forall|j: int|
            0 <= j < ms.len() ==> is_notification(#[trigger] ms[j]),
        forall|k: int|
            sole_answer(ms, id, k) ==> scan_messages(ms, id) == Ok::<Option<Json>, Seq<char>>(
                member(#[trigger] ms[k], "result"@),
            ),
        scan_messages(ms, id) matches Ok(Some(x)) ==> exists|k: int| sole_answer(ms, id, k),
    decreases ms.len(),
{
    if ms.len() > 0 {
        let init = ms.drop_last();
        let m = ms.last();
        let last = ms.len() - 1;
        lemma_scan_exact(init, id);
        assert forall|j: int| 0 <= j < init.len() implies init[j] == ms[j] by {}
        assert(ms[last] == m);
        match scan_messages(init, id) {
            Err(_) => {
                assert(!(forall|j: int| 0 <= j < init.len() ==> is_notification(#[trigger] init[j])));
                let bad = choose|j: int| 0 <= j < init.len() && !is_notification(#[trigger] init[j]);
                assert(!is_notification(ms[bad]));
                assert forall|k: int| !sole_answer(ms, id, k) by {
                    if sole_answer(ms, id, k) {
                        if k == last {
                            assert(is_notification(ms[bad]));
                        } else {
                            assert(sole_answer(init, id, k)) by {
                                assert forall|j: int| 0 <= j < init.len() && j != k implies is_notification(
                                    #[trigger] init[j],
                                ) by {
                                    assert(is_notification(ms[j]));
                                }
                            }
                        }
                    }
                }
            },
            Ok(f) => {
                lemma_message_step_exact(m, id, f);
                assert forall|k: int| sole_answer(ms, id, k) implies scan_messages(ms, id) == Ok::<
                    Option<Json>,
                    Seq<char>,
                >(member(#[trigger] ms[k], "result"@)) by {
                    if k == last {
                        assert forall|j: int| 0 <= j < init.len() implies is_notification(
                            #[trigger] init[j],
                        ) by {
                            assert(is_notification(ms[j]));
                        }
                    } else {
                        assert(is_notification(ms[last]));
                        assert(sole_answer(init, id, k)) by {
                            assert forall|j: int| 0 <= j < init.len() && j != k implies is_notification(
                                #[trigger] init[j],
                            ) by {
                                assert(is_notification(ms[j]));
                            }
                        }
                    }
                }
                if scan_messages(ms, id) matches Ok(Some(x)) {
                    if is_notification(m) {
                        let k = choose|k: int| sole_answer(init, id, k);
                        assert(sole_answer(ms, id, k)) by {
                            assert forall|j: int| 0 <= j < ms.len() && j != k implies is_notification(
                                #[trigger] ms[j],
                            ) by {
                                if j < init.len() {
                                    assert(is_notification(init[j]));
                                }
                            }
                        }
                    } else {
                        assert(sole_answer(ms, id, last)) by {
                            assert forall|j: int| 0 <= j < ms.len() && j != last implies is_notification(
                                #[trigger] ms[j],
                            ) by {
                                assert(is_notification(init[j]));
                            }
                        }
                    }
                }
                if !is_notification(m) {
                    assert(!is_notification(ms[last]));
                }
            },
        }
    }
}

/// A reply yields a result for the request with `expected_id` exactly when one of its
/// messages answers that id with a result and no error and every other message is a
/// notification; the result is then that message's `result`. Without an id nothing is
/// returned.
pub proof fn lemma_response_result_exact(ms: Seq<Json>, expected_id: Option<u64>)
    ensures
        expected_id is None ==> response_result(ms, expected_id) is Err,
        expected_id matches Some(id) ==> ((response_result(ms, expected_id) is Ok) <==> exists|
            k: int,
        | sole_answer(ms, id, k)),
        expected_id matches Some(id) ==> forall|k: int|
            sole_answer(ms, id, k) ==> response_result(ms, expected_id) == Ok::<Json, Seq<char>>(
                member(#[trigger] ms[k], "result"@)->0,
            ),
{
    if let Some(id) = expected_id {
        lemma_scan_exact(ms, id);
        if exists|k: int| sole_answer(ms, id, k) {
            let k = choose|k: int| sole_answer(ms, id, k);
            assert(!is_notification(ms[k]));
        }
    }
}

} // verus!
