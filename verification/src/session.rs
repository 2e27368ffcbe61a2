//! The order of the MCP exchange that performs one search: initialize, confirm
//! initialization, call the search tool. The client performs each request and hands
//! back its reply; the decisions are made here.

use vstd::prelude::*;
use crate::args::{ArgView, Options, string_views};
use crate::transport::{
    PROTOCOL_VERSION,
    Json, initialize_check, texts_view, tool_result_texts, tool_texts, validate_initialize_result,
};

verus! {

/// The JSON-RPC id of the `initialize` request.
pub const INITIALIZE_ID: u64 = 1;

/// The JSON-RPC id of the `tools/call` request.
pub const SEARCH_CALL_ID: u64 = 2;

/// The value of one argument of the search tool.
pub enum ArgValue {
    Text(String),
    Flag(bool),
    Texts(Vec<String>),
}

/// The mathematical value of an [`ArgValue`].
pub enum ArgValueView {
    Text(Seq<char>),
    Flag(bool),
    Texts(Seq<Seq<char>>),
}

impl View for ArgValue {
    type V = ArgValueView;

    open spec fn view(&self) -> ArgValueView {
        match self {
            ArgValue::Text(s) => ArgValueView::Text(s@),
            ArgValue::Flag(b) => ArgValueView::Flag(*b),
            ArgValue::Texts(v) => ArgValueView::Texts(string_views(v@)),
        }
    }
}

/// The values of the tool arguments.
pub open spec fn arguments_view(v: Seq<(String, ArgValue)>) -> Seq<(Seq<char>, ArgValueView)> {
    v.map_values(|a: (String, ArgValue)| (a.0@, a.1@))
}

/// The arguments of the `searchGitHub` tool for `o`: the query and the three matching
/// flags always, `repo` and `path` when given, and `language` when any language is given.
pub open spec fn search_arguments_of(o: ArgView) -> Seq<(Seq<char>, ArgValueView)> {
    let base = seq![
        ("query"@, ArgValueView::Text(o.query.unwrap())),
        ("matchCase"@, ArgValueView::Flag(o.match_case)),
        ("matchWholeWords"@, ArgValueView::Flag(o.match_whole_words)),
        ("useRegexp"@, ArgValueView::Flag(o.use_regexp)),
    ];
    let with_repo = match o.repo {
        Some(r) => base.push(("repo"@, ArgValueView::Text(r))),
        None => base,
    };
    let with_path = match o.path {
        Some(p) => with_repo.push(("path"@, ArgValueView::Text(p))),
        None => with_repo,
    };
    if o.languages.len() > 0 {
        with_path.push(("language"@, ArgValueView::Texts(o.languages)))
    } else {
        with_path
    }
}

/// The arguments of the search tool call for `options`.
pub fn search_arguments(options: &Options) -> (args: Vec<(String, ArgValue)>)
    ensures
        arguments_view(args@) == search_arguments_of(options@),
{
    let mut args: Vec<(String, ArgValue)> = Vec::new();
    args.push(("query".to_owned(), ArgValue::Text(options.query.clone())));
    args.push(("matchCase".to_owned(), ArgValue::Flag(options.match_case)));
    args.push(("matchWholeWords".to_owned(), ArgValue::Flag(options.match_whole_words)));
    args.push(("useRegexp".to_owned(), ArgValue::Flag(options.use_regexp)));
    let ghost base = arguments_view(args@);
    assert(base =~= seq![
        ("query"@, ArgValueView::Text(options@.query.unwrap())),
        ("matchCase"@, ArgValueView::Flag(options.match_case)),
        ("matchWholeWords"@, ArgValueView::Flag(options.match_whole_words)),
        ("useRegexp"@, ArgValueView::Flag(options.use_regexp)),
    ]);
    match &options.repo {
        Some(r) => {
            let ghost before = args@;
            args.push(("repo".to_owned(), ArgValue::Text(r.clone())));
            assert(arguments_view(args@) =~= arguments_view(before).push(("repo"@, ArgValueView::Text(r@))));
        },
        None => {},
    }
    match &options.path {
        Some(p) => {
            let ghost before = args@;
            args.push(("path".to_owned(), ArgValue::Text(p.clone())));
            assert(arguments_view(args@) =~= arguments_view(before).push(("path"@, ArgValueView::Text(p@))));
        },
        None => {},
    }
    if options.languages.len() > 0 {
        let ghost before = args@;
        let languages = clone_strings(&options.languages);
        args.push(("language".to_owned(), ArgValue::Texts(languages)));
        assert(arguments_view(args@) =~= arguments_view(before).push(
            ("language"@, ArgValueView::Texts(string_views(options.languages@))),
        ));
    }
    args
}

fn clone_strings(v: &Vec<String>) -> (w: Vec<String>)
    ensures
        string_views(w@) == string_views(v@),
{
    let mut w: Vec<String> = Vec::new();
    let mut i: usize = 0;
    while i < v.len()
        invariant
            i <= v.len(),
            string_views(w@) == string_views(v@.take(i as int)),
        decreases v.len() - i,
    {
        let ghost before = w@;
        let c = v[i].clone();
        assert(c@ == v@[i as int]@);
        w.push(c);
        assert(v@.take(i + 1) == v@.take(i as int).push(v@[i as int]));
        assert(string_views(w@) =~= string_views(before).push(c@));
        assert(string_views(v@.take(i + 1)) =~= string_views(v@.take(i as int)).push(v@[i as int]@));
        i = i + 1;
    }
    assert(v@.take(v.len() as int) == v@);
    w
}

/// Whether `args` holds exactly one argument named `name`, and its value is `v`.
pub open spec fn sole_argument(
    args: Seq<(Seq<char>, ArgValueView)>,
    name: Seq<char>,
    v: ArgValueView,
) -> bool {
    exists|k: int|
        0 <= k < args.len() && #[trigger] args[k] == (name, v) && forall|j: int|
            0 <= j < args.len() && args[j].0 == name ==> j == k
}

/// Whether no argument of `args` is named `name`.
pub open spec fn no_argument(args: Seq<(Seq<char>, ArgValueView)>, name: Seq<char>) -> bool {
    forall|j: int| 0 <= j < args.len() ==> #[trigger] args[j].0 != name
}

/// The search tool receives each setting under its own name, once: the query, the
/// three matching flags, the `--repo` and `--path` values when given (and no such
/// argument otherwise), and the `--language` values, in order, when any is given.
pub proof fn lemma_search_arguments_carry_options(o: ArgView)
    requires
        o.query is Some,
    ensures
        sole_argument(search_arguments_of(o), "query"@, ArgValueView::Text(o.query->0)),
        sole_argument(search_arguments_of(o), "matchCase"@, ArgValueView::Flag(o.match_case)),
        sole_argument(
            search_arguments_of(o),
            "matchWholeWords"@,
            ArgValueView::Flag(o.match_whole_words),
        ),
        sole_argument(search_arguments_of(o), "useRegexp"@, ArgValueView::Flag(o.use_regexp)),
        o.repo matches Some(r) ==> sole_argument(
            search_arguments_of(o),
            "repo"@,
            ArgValueView::Text(r),
        ),
        o.repo is None ==> no_argument(search_arguments_of(o), "repo"@),
        o.path matches Some(p) ==> sole_argument(
            search_arguments_of(o),
            "path"@,
            ArgValueView::Text(p),
        ),
        o.path is None ==> no_argument(search_arguments_of(o), "path"@),
        o.languages.len() > 0 ==> sole_argument(
            search_arguments_of(o),
            "language"@,
            ArgValueView::Texts(o.languages),
        ),
        o.languages.len() == 0 ==> no_argument(search_arguments_of(o), "language"@),
{
    reveal_strlit("query");
    reveal_strlit("matchCase");
    reveal_strlit("matchWholeWords");
    reveal_strlit("useRegexp");
    reveal_strlit("repo");
    reveal_strlit("path");
    reveal_strlit("language");
    let a = search_arguments_of(o);
    let names = seq![
        "query"@,
        "matchCase"@,
        "matchWholeWords"@,
        "useRegexp"@,
        "repo"@,
        "path"@,
        "language"@,
    ];
    assert forall|x: int, y: int| 0 <= x < y < 7 implies names[x] != names[y] by {
        assert(names[x].len() != names[y].len() || names[x][0] != names[y][0] || names[x][1]
            != names[y][1] || names[x][5] != names[y][5]);
    }
    let r_at = 4int;
    let p_at = if o.repo is Some { 5int } else { 4int };
    let l_at = p_at + if o.path is Some { 1int } else { 0int };
    assert(a.len() == l_at + if o.languages.len() > 0 { 1int } else { 0int });
    assert forall|j: int| 0 <= j < a.len() implies #[trigger] a[j].0 == names[if j < 4 {
        j
    } else if o.repo is Some && j == r_at {
        4
    } else if o.path is Some && j == p_at {
        5
    } else {
        6
    }] by {}
    assert(a[0] == ("query"@, ArgValueView::Text(o.query->0)));
    assert(a[1] == ("matchCase"@, ArgValueView::Flag(o.match_case)));
    assert(a[2] == ("matchWholeWords"@, ArgValueView::Flag(o.match_whole_words)));
    assert(a[3] == ("useRegexp"@, ArgValueView::Flag(o.use_regexp)));
    if let Some(r) = o.repo {
        assert(a[r_at] == ("repo"@, ArgValueView::Text(r)));
    }
    if let Some(p) = o.path {
        assert(a[p_at] == ("path"@, ArgValueView::Text(p)));
    }
    if o.languages.len() > 0 {
        assert(a[l_at] == ("language"@, ArgValueView::Texts(o.languages)));
    }
}

/// Where a search session stands.
#[derive(Debug, Clone, Copy, PartialEq, Eq)]
pub enum SessionPhase {
    /// The `initialize` request has been sent.
    Initializing,
    /// The `notifications/initialized` notification has been sent.
    Notifying,
    /// The `tools/call` request has been sent.
    Searching,
    /// The session is over.
    Finished,
}

/// A request or notification of the session.
pub enum McpRequest {
    /// `initialize`, with the protocol version and the client's identity.
    Initialize,
    /// `notifications/initialized`.
    InitializedNotification,
    /// `tools/call` of `searchGitHub` with these arguments.
    SearchCall(Vec<(String, ArgValue)>),
}

/// The value of a request of the session.
pub enum McpRequestView {
    Initialize,
    InitializedNotification,
    SearchCall(Seq<(Seq<char>, ArgValueView)>),
}

impl View for McpRequest {
    type V = McpRequestView;

    open spec fn view(&self) -> McpRequestView {
        match self {
            McpRequest::Initialize => McpRequestView::Initialize,
            McpRequest::InitializedNotification => McpRequestView::InitializedNotification,
            McpRequest::SearchCall(args) => McpRequestView::SearchCall(arguments_view(args@)),
        }
    }
}

/// The name the client gives itself in `initialize`.
pub const CLIENT_NAME: &'static str = "grepa";

/// The `params` of a JSON-RPC message to the server.
pub enum RequestParams {
    /// `initialize`: the protocol version, empty capabilities, and the client's name
    /// and version (`clientInfo`).
    Initialize { protocol_version: String, client_name: String, client_version: String },
    /// An empty object.
    Empty,
    /// `tools/call`: the tool's name and its arguments.
    ToolCall { name: String, arguments: Vec<(String, ArgValue)> },
}

/// A JSON-RPC message to the server; a message without an id is a notification.
pub struct RpcMessage {
    pub jsonrpc: String,
    pub id: Option<u64>,
    pub method: String,
    pub params: RequestParams,
}

/// The value of [`RequestParams`].
pub enum RequestParamsView {
    Initialize { protocol_version: Seq<char>, client_name: Seq<char>, client_version: Seq<char> },
    Empty,
    ToolCall { name: Seq<char>, arguments: Seq<(Seq<char>, ArgValueView)> },
}

/// The value of [`RpcMessage`].
pub struct RpcMessageView {
    pub jsonrpc: Seq<char>,
    pub id: Option<u64>,
    pub method: Seq<char>,
    pub params: RequestParamsView,
}

impl View for RpcMessage {
    type V = RpcMessageView;

    open spec fn view(&self) -> RpcMessageView {
        RpcMessageView {
            jsonrpc: self.jsonrpc@,
            id: self.id,
            method: self.method@,
            params: match self.params {
                RequestParams::Initialize { protocol_version, client_name, client_version } =>
                    RequestParamsView::Initialize {
                    protocol_version: protocol_version@,
                    client_name: client_name@,
                    client_version: client_version@,
                },
                RequestParams::Empty => RequestParamsView::Empty,
                RequestParams::ToolCall { name, arguments } => RequestParamsView::ToolCall {
                    name: name@,
                    arguments: arguments_view(arguments@),
                },
            },
        }
    }
}

/// The JSON-RPC 2.0 message for `request` with `id`: `initialize` with the protocol
/// version, empty capabilities and the client's identity; `notifications/initialized`
/// with empty params; `tools/call` of `searchGitHub` with the search arguments.
pub open spec fn request_message_of(request: McpRequestView, id: Option<u64>, client_version: Seq<
    char,
>) -> RpcMessageView {
    match request {
        McpRequestView::Initialize => RpcMessageView {
            jsonrpc: "2.0"@,
            id: id,
            method: "initialize"@,
            params: RequestParamsView::Initialize {
                protocol_version: PROTOCOL_VERSION@,
                client_name: CLIENT_NAME@,
                client_version: client_version,
            },
        },
        McpRequestView::InitializedNotification => RpcMessageView {
            jsonrpc: "2.0"@,
            id: id,
            method: "notifications/initialized"@,
            params: RequestParamsView::Empty,
        },
        McpRequestView::SearchCall(args) => RpcMessageView {
            jsonrpc: "2.0"@,
            id: id,
            method: "tools/call"@,
            params: RequestParamsView::ToolCall { name: "searchGitHub"@, arguments: args },
        },
    }
}

/// The JSON-RPC message that sends `request` with `id`; `client_version` is the
/// version the client reports of itself.
pub fn request_message(request: McpRequest, id: Option<u64>, client_version: &str) -> (m: RpcMessage)
    ensures
        m@ == request_message_of(request@, id, client_version@),
{
    match request {
        McpRequest::Initialize => RpcMessage {
            jsonrpc: "2.0".to_owned(),
            id: id,
            method: "initialize".to_owned(),
            params: RequestParams::Initialize {
                protocol_version: PROTOCOL_VERSION.to_owned(),
                client_name: CLIENT_NAME.to_owned(),
                client_version: client_version.to_owned(),
            },
        },
        McpRequest::InitializedNotification => RpcMessage {
            jsonrpc: "2.0".to_owned(),
            id: id,
            method: "notifications/initialized".to_owned(),
            params: RequestParams::Empty,
        },
        McpRequest::SearchCall(arguments) => RpcMessage {
            jsonrpc: "2.0".to_owned(),
            id: id,
            method: "tools/call".to_owned(),
            params: RequestParams::ToolCall { name: "searchGitHub".to_owned(), arguments: arguments },
        },
    }
}

/// What the client does next.
pub enum SessionAction {
    /// Send the request; `id` is its JSON-RPC id (`None` for a notification).
    Send { request: McpRequest, id: Option<u64> },
    /// The session is over with the texts of the tool result, or the error that ended it.
    Finish(Result<Vec<String>, String>),
}

/// The first action of a session: send `initialize`.
pub fn start_session() -> (step: (SessionPhase, SessionAction))
    ensures
        step.0 == SessionPhase::Initializing,
        step.1 matches SessionAction::Send { request: McpRequest::Initialize, id },
        step.1->id == Some(INITIALIZE_ID),
{
    (SessionPhase::Initializing, SessionAction::Send { request: McpRequest::Initialize, id: Some(INITIALIZE_ID) })
}

/// Whether `step` is what the session does in `phase` when the last request got
/// `reply`: a failed request ends the session with its error; a checked `initialize`
/// result leads to the notification, the notification to the search call, and the
/// search result ends the session with its texts (or why they are refused). A finished
/// session takes no step.
pub open spec fn session_step(
    phase: SessionPhase,
    reply: Result<Json, Seq<char>>,
    options: ArgView,
    next: SessionPhase,
    action: SessionAction,
) -> bool {
    phase != SessionPhase::Finished && match reply {
        Err(e) => {
            &&& next == SessionPhase::Finished
            &&& action matches SessionAction::Finish(Err(m))
            &&& m@ == e
        },
        Ok(r) => match phase {
            SessionPhase::Initializing => match initialize_check(r) {
                Err(e) => {
                    &&& next == SessionPhase::Finished
                    &&& action matches SessionAction::Finish(Err(m))
                    &&& m@ == e
                },
                Ok(()) => {
                    &&& next == SessionPhase::Notifying
                    &&& action matches SessionAction::Send {
                        request: McpRequest::InitializedNotification,
                        id,
                    }
                    &&& id is None
                },
            },
            SessionPhase::Notifying => {
                &&& next == SessionPhase::Searching
                &&& action matches SessionAction::Send { request: McpRequest::SearchCall(args), id }
                &&& id == Some(SEARCH_CALL_ID)
                &&& arguments_view(args@) == search_arguments_of(options)
            },
            SessionPhase::Searching => {
                &&& next == SessionPhase::Finished
                &&& match tool_result_texts(r) {
                    Ok(t) => {
                        &&& action matches SessionAction::Finish(Ok(v))
                        &&& texts_view(v@) == t
                    },
                    Err(e) => {
                        &&& action matches SessionAction::Finish(Err(m))
                        &&& m@ == e
                    },
                }
            },
            SessionPhase::Finished => false,
        },
    }
}

/// The position of a phase in the order of the exchange.
pub open spec fn phase_rank(p: SessionPhase) -> int {
    match p {
        SessionPhase::Initializing => 0,
        SessionPhase::Notifying => 1,
        SessionPhase::Searching => 2,
        SessionPhase::Finished => 3,
    }
}

/// A session performs exactly the initialization and one search call: every step moves
/// it to a later phase, it sends a request exactly while it has not finished, and the
/// requests come as `initialize` (id 1), the notification (no id), then the search call
/// (id 2).
pub proof fn lemma_session_moves_forward(
    phase: SessionPhase,
    reply: Result<Json, Seq<char>>,
    options: ArgView,
    next: SessionPhase,
    action: SessionAction,
)
    requires
        session_step(phase, reply, options, next, action),
    ensures
        phase_rank(next) > phase_rank(phase),
        action is Finish <==> next == SessionPhase::Finished,
        next == SessionPhase::Notifying ==> action matches SessionAction::Send {
            request: McpRequest::InitializedNotification,
            id: None,
        },
        next == SessionPhase::Searching ==> action matches SessionAction::Send {
            request: McpRequest::SearchCall(_),
            id: Some(SEARCH_CALL_ID),
        },
{
}

/// The view of a reply: the result of the request, or why it failed.
pub open spec fn reply_view(reply: &Result<Json, String>) -> Result<Json, Seq<char>> {
    match reply {
        Ok(r) => Ok(*r),
        Err(e) => Err(e@),
    }
}

/// Decides the next step of a search session from the reply to the last request.
pub fn next_action(phase: SessionPhase, reply: Result<Json, String>, options: &Options) -> (step: (
    SessionPhase,
    SessionAction,
))
    requires
        phase != SessionPhase::Finished,
    ensures
        session_step(phase, reply_view(&reply), options@, step.0, step.1),
{
    let result = match reply {
        Err(e) => return (SessionPhase::Finished, SessionAction::Finish(Err(e))),
        Ok(r) => r,
    };
    match phase {
        SessionPhase::Initializing => match validate_initialize_result(&result) {
            Err(e) => (SessionPhase::Finished, SessionAction::Finish(Err(e))),
            Ok(()) => (
                SessionPhase::Notifying,
                SessionAction::Send { request: McpRequest::InitializedNotification, id: None },
            ),
        },
        SessionPhase::Notifying => (
            SessionPhase::Searching,
            SessionAction::Send {
                request: McpRequest::SearchCall(search_arguments(options)),
                id: Some(SEARCH_CALL_ID),
            },
        ),
        _ => (SessionPhase::Finished, SessionAction::Finish(tool_texts(&result))),
    }
}

} // verus!
