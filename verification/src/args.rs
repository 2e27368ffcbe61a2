//! Small, strict command-line parser and input limits.

use vstd::prelude::*;
use vstd::utf8::encode_utf8;
use crate::text::{
    chars_of, concat, has_prefix, decimal, decimal_chars, parse_u64, parse_u64_chars, str_eq,
    string_from_chars, utf8_len,
};

verus! {

/// The most bytes a query may hold.
pub const MAX_QUERY_BYTES: usize = 4096;

/// The most bytes a `--repo`, `--path` or `--language` value may hold.
pub const MAX_FILTER_BYTES: usize = 1024;

/// The most `--language` filters.
pub const MAX_LANGUAGES: usize = 32;

/// The longest network timeout, in seconds.
pub const MAX_TIMEOUT_SECONDS: u64 = 300;

/// The network timeout when none is given, in seconds.
pub const DEFAULT_TIMEOUT_SECONDS: u64 = 15;

/// Color behavior for human output.
#[derive(Debug, Clone, Copy, PartialEq, Eq)]
pub enum Color {
    Auto,
    Always,
    Never,
}

/// CLI settings after syntax and safety validation.
#[derive(Debug, Clone, PartialEq, Eq)]
pub struct Options {
    pub query: String,
    pub match_case: bool,
    pub match_whole_words: bool,
    pub use_regexp: bool,
    pub repo: Option<String>,
    pub path: Option<String>,
    pub languages: Vec<String>,
    pub json: bool,
    pub color: Color,
    pub timeout_seconds: u64,
}

/// Parser outcome that lets the binary handle informational flags without errors.
#[derive(Debug, Clone, PartialEq, Eq)]
pub enum ParseOutcome {
    Run(Options),
    Help,
    Version,
}

/// Usage text kept compact enough for terminal help.
pub const USAGE: &'static str = "Usage: grep-cli [OPTIONS] QUERY\n\nSearch public GitHub code through mcp.grep.app.\n\nOptions:\n      --match-case             Match case exactly\n      --match-whole-words      Match whole words only\n      --use-regexp             Treat QUERY as a regular expression\n      --repo VALUE             Limit to a repository\n      --path VALUE             Limit to a file path\n      --language VALUE         Limit to a language (repeatable)\n      --json                   Emit typed JSON results\n      --color auto|always|never Color human output (default: auto)\n      --timeout SECONDS        Network timeout, 1–300 seconds (default: 15)\n  -h, --help                   Show this help\n  -V, --version                Show version\n\nUse `--` before a query that begins with a hyphen.";

/// The settings gathered so far while the arguments are read.
pub struct ArgState {
    pub query: Option<String>,
    pub match_case: bool,
    pub match_whole_words: bool,
    pub use_regexp: bool,
    pub repo: Option<String>,
    pub path: Option<String>,
    pub languages: Vec<String>,
    pub json: bool,
    pub color: Color,
    pub timeout_seconds: u64,
}

/// The value of [`ArgState`] (and, with a query, of [`Options`]).
pub struct ArgView {
    pub query: Option<Seq<char>>,
    pub match_case: bool,
    pub match_whole_words: bool,
    pub use_regexp: bool,
    pub repo: Option<Seq<char>>,
    pub path: Option<Seq<char>>,
    pub languages: Seq<Seq<char>>,
    pub json: bool,
    pub color: Color,
    pub timeout_seconds: u64,
}

/// The value of an optional string.
pub open spec fn opt_view(s: Option<String>) -> Option<Seq<char>> {
    match s {
        Some(x) => Some(x@),
        None => None,
    }
}

/// The values of a sequence of strings.
pub open spec fn string_views(s: Seq<String>) -> Seq<Seq<char>> {
    s.map_values(|x: String| x@)
}

impl View for ArgState {
    type V = ArgView;

    open spec fn view(&self) -> ArgView {
        ArgView {
            query: opt_view(self.query),
            match_case: self.match_case,
            match_whole_words: self.match_whole_words,
            use_regexp: self.use_regexp,
            repo: opt_view(self.repo),
            path: opt_view(self.path),
            languages: string_views(self.languages@),
            json: self.json,
            color: self.color,
            timeout_seconds: self.timeout_seconds,
        }
    }
}

impl View for Options {
    type V = ArgView;

    open spec fn view(&self) -> ArgView {
        ArgView {
            query: Some(self.query@),
            match_case: self.match_case,
            match_whole_words: self.match_whole_words,
            use_regexp: self.use_regexp,
            repo: opt_view(self.repo),
            path: opt_view(self.path),
            languages: string_views(self.languages@),
            json: self.json,
            color: self.color,
            timeout_seconds: self.timeout_seconds,
        }
    }
}

/// The value of a parse outcome.
pub enum OutcomeView {
    Run(ArgView),
    Help,
    Version,
}

/// The value of a parse result.
pub open spec fn parse_result_view(r: Result<ParseOutcome, String>) -> Result<OutcomeView, Seq<char>> {
    match r {
        Ok(ParseOutcome::Run(o)) => Ok(OutcomeView::Run(o@)),
        Ok(ParseOutcome::Help) => Ok(OutcomeView::Help),
        Ok(ParseOutcome::Version) => Ok(OutcomeView::Version),
        Err(e) => Err(e@),
    }
}

/// The settings before any argument is read.
pub open spec fn initial_args() -> ArgView {
    ArgView {
        query: None,
        match_case: false,
        match_whole_words: false,
        use_regexp: false,
        repo: None,
        path: None,
        languages: seq![],
        json: false,
        color: Color::Auto,
        timeout_seconds: DEFAULT_TIMEOUT_SECONDS,
    }
}

/// One command-line item as the argument lexer hands it over.
pub enum ArgToken {
    /// A short option, `-x`.
    Short(char),
    /// A long option, `--name` (without the dashes).
    Long(String),
    /// A positional argument.
    Value(String),
    /// A positional argument that is not valid Unicode.
    NonUnicodeValue,
}

/// The value of an option as the argument lexer hands it over.
pub enum ValueToken {
    Text(String),
    NonUnicode,
    Missing,
}

/// The value of an [`ArgToken`].
pub enum TokenView {
    Short(char),
    Long(Seq<char>),
    Value(Seq<char>),
    NonUnicodeValue,
}

/// The value of a [`ValueToken`].
pub enum ValueView {
    Text(Seq<char>),
    NonUnicode,
    Missing,
}

impl View for ArgToken {
    type V = TokenView;

    open spec fn view(&self) -> TokenView {
        match self {
            ArgToken::Short(c) => TokenView::Short(*c),
            ArgToken::Long(s) => TokenView::Long(s@),
            ArgToken::Value(s) => TokenView::Value(s@),
            ArgToken::NonUnicodeValue => TokenView::NonUnicodeValue,
        }
    }
}

impl View for ValueToken {
    type V = ValueView;

    open spec fn view(&self) -> ValueView {
        match self {
            ValueToken::Text(s) => ValueView::Text(s@),
            ValueToken::NonUnicode => ValueView::NonUnicode,
            ValueToken::Missing => ValueView::Missing,
        }
    }
}

/// What reading one item does: go on with new settings, or stop with an outcome.
pub enum ArgFlow {
    Continue(ArgView),
    Stop(Result<OutcomeView, Seq<char>>),
}

/// Whether the item `t`, read in state `st`, consumes the next argument as its value:
/// `--repo`, `--path`, `--color`, `--timeout`, and `--language` while fewer than
/// `MAX_LANGUAGES` languages have been given.
pub open spec fn wants_value(st: ArgView, t: TokenView) -> bool {
    match t {
        TokenView::Long(n) => n == "repo"@ || n == "path"@ || n == "color"@ || n == "timeout"@ || (n
            == "language"@ && st.languages.len() < MAX_LANGUAGES),
        _ => false,
    }
}

/// The value read for option `name`, or why it is refused.
pub open spec fn value_of(name: Seq<char>, v: ValueView) -> Result<Seq<char>, Seq<char>> {
    match v {
        ValueView::Text(s) => Ok(s),
        ValueView::NonUnicode => Err(name + " must be valid UTF-8"@),
        ValueView::Missing => Err(name + " requires a value"@),
    }
}

/// The color policy that a `--color` value names.
pub open spec fn color_named(s: Seq<char>) -> Option<Color> {
    if s == "auto"@ {
        Some(Color::Auto)
    } else if s == "always"@ {
        Some(Color::Always)
    } else if s == "never"@ {
        Some(Color::Never)
    } else {
        None
    }
}

/// The message for too many `--language` filters.
pub open spec fn too_many_languages_message() -> Seq<char> {
    "at most "@ + decimal(MAX_LANGUAGES as nat) + " --language filters are allowed"@
}

/// The message for a timeout out of range.
pub open spec fn timeout_range_message() -> Seq<char> {
    "--timeout must be between 1 and "@ + decimal(MAX_TIMEOUT_SECONDS as nat) + " seconds"@
}

/// What the settings become after the item `t`, with `v` the value read for it when
/// `wants_value(st, t)`.
pub open spec fn apply_token(st: ArgView, t: TokenView, v: ValueView) -> ArgFlow {
    match t {
        TokenView::Long(n) => if n == "match-case"@ {
            ArgFlow::Continue(ArgView { match_case: true, ..st })
        } else if n == "match-whole-words"@ {
            ArgFlow::Continue(ArgView { match_whole_words: true, ..st })
        } else if n == "use-regexp"@ {
            ArgFlow::Continue(ArgView { use_regexp: true, ..st })
        } else if n == "repo"@ {
            match value_of("--repo"@, v) {
                Ok(s) => ArgFlow::Continue(ArgView { repo: Some(s), ..st }),
                Err(e) => ArgFlow::Stop(Err(e)),
            }
        } else if n == "path"@ {
            match value_of("--path"@, v) {
                Ok(s) => ArgFlow::Continue(ArgView { path: Some(s), ..st }),
                Err(e) => ArgFlow::Stop(Err(e)),
            }
        } else if n == "language"@ {
            if st.languages.len() == MAX_LANGUAGES {
                ArgFlow::Stop(Err(too_many_languages_message()))
            } else {
                match value_of("--language"@, v) {
                    Ok(s) => ArgFlow::Continue(ArgView { languages: st.languages.push(s), ..st }),
                    Err(e) => ArgFlow::Stop(Err(e)),
                }
            }
        } else if n == "json"@ {
            ArgFlow::Continue(ArgView { json: true, ..st })
        } else if n == "color"@ {
            match value_of("--color"@, v) {
                Ok(s) => match color_named(s) {
                    Some(c) => ArgFlow::Continue(ArgView { color: c, ..st }),
                    None => ArgFlow::Stop(Err("--color must be auto, always, or never"@)),
                },
                Err(e) => ArgFlow::Stop(Err(e)),
            }
        } else if n == "timeout"@ {
            match value_of("--timeout"@, v) {
                Ok(s) => match parse_u64(s) {
                    None => ArgFlow::Stop(Err("--timeout must be a positive integer"@)),
                    Some(t) => if t == 0 || t > MAX_TIMEOUT_SECONDS {
                        ArgFlow::Stop(Err(timeout_range_message()))
                    } else {
                        ArgFlow::Continue(ArgView { timeout_seconds: t, ..st })
                    },
                },
                Err(e) => ArgFlow::Stop(Err(e)),
            }
        } else if n == "help"@ {
            ArgFlow::Stop(Ok(OutcomeView::Help))
        } else if n == "version"@ {
            ArgFlow::Stop(Ok(OutcomeView::Version))
        } else {
            ArgFlow::Stop(Err("unknown option --"@ + n))
        },
        TokenView::Short(c) => if c == 'h' {
            ArgFlow::Stop(Ok(OutcomeView::Help))
        } else if c == 'V' {
            ArgFlow::Stop(Ok(OutcomeView::Version))
        } else {
            ArgFlow::Stop(Err("unknown option -"@ + seq![c]))
        },
        TokenView::Value(s) => if st.query is Some {
            ArgFlow::Stop(Err("only one QUERY may be supplied"@))
        } else {
            ArgFlow::Continue(ArgView { query: Some(s), ..st })
        },
        TokenView::NonUnicodeValue => ArgFlow::Stop(Err("arguments must be valid UTF-8"@)),
    }
}

/// `name must not be empty` for an empty value.
pub open spec fn nonempty_check(name: Seq<char>, value: Seq<char>) -> Result<(), Seq<char>> {
    if value.len() == 0 {
        Err(name + " must not be empty"@)
    } else {
        Ok(())
    }
}

/// `name must be at most N bytes` for a value of more than `maximum` UTF-8 bytes.
pub open spec fn length_check(name: Seq<char>, value: Seq<char>, maximum: nat) -> Result<
    (),
    Seq<char>,
> {
    if encode_utf8(value).len() > maximum {
        Err(name + " must be at most "@ + decimal(maximum) + " bytes"@)
    } else {
        Ok(())
    }
}

/// Both checks of a filter value, the emptiness check first.
pub open spec fn filter_check(name: Seq<char>, value: Seq<char>) -> Result<(), Seq<char>> {
    match nonempty_check(name, value) {
        Err(e) => Err(e),
        Ok(()) => length_check(name, value, MAX_FILTER_BYTES as nat),
    }
}

/// The checks of every `--language` value in order; the first refusal wins.
pub open spec fn languages_check(languages: Seq<Seq<char>>) -> Result<(), Seq<char>>
    decreases languages.len(),
{
    if languages.len() == 0 {
        Ok(())
    } else {
        match languages_check(languages.drop_last()) {
            Err(e) => Err(e),
            Ok(()) => filter_check("--language"@, languages.last()),
        }
    }
}

/// The checks of an optional filter value.
pub open spec fn optional_check(name: Seq<char>, value: Option<Seq<char>>) -> Result<(), Seq<char>> {
    match value {
        None => Ok(()),
        Some(v) => filter_check(name, v),
    }
}

/// The outcome once every argument is read: a query is required, and the query and
/// all filters are checked for emptiness and length, in that order.
pub open spec fn finish_args(st: ArgView) -> Result<OutcomeView, Seq<char>> {
    match st.query {
        None => Err("missing QUERY (use --help for usage)"@),
        Some(q) => match nonempty_check("QUERY"@, q) {
            Err(e) => Err(e),
            Ok(()) => match length_check("QUERY"@, q, MAX_QUERY_BYTES as nat) {
                Err(e) => Err(e),
                Ok(()) => match optional_check("--repo"@, st.repo) {
                    Err(e) => Err(e),
                    Ok(()) => match optional_check("--path"@, st.path) {
                        Err(e) => Err(e),
                        Ok(()) => match languages_check(st.languages) {
                            Err(e) => Err(e),
                            Ok(()) => Ok(OutcomeView::Run(st)),
                        },
                    },
                },
            },
        },
    }
}

/// Whether settings respect every input limit: a non-empty query of at most
/// `MAX_QUERY_BYTES` bytes, non-empty filters of at most `MAX_FILTER_BYTES` bytes, at
/// most `MAX_LANGUAGES` languages, and a timeout from 1 to `MAX_TIMEOUT_SECONDS` seconds.
pub open spec fn options_valid(o: ArgView) -> bool {
    &&& o.query matches Some(q) && q.len() > 0 && encode_utf8(q).len() <= MAX_QUERY_BYTES
    &&& o.repo matches Some(r) ==> r.len() > 0 && encode_utf8(r).len() <= MAX_FILTER_BYTES
    &&& o.path matches Some(p) ==> p.len() > 0 && encode_utf8(p).len() <= MAX_FILTER_BYTES
    &&& o.languages.len() <= MAX_LANGUAGES
    &&& forall|i: int|
        0 <= i < o.languages.len() ==> #[trigger] o.languages[i].len() > 0 && encode_utf8(
            o.languages[i],
        ).len() <= MAX_FILTER_BYTES
    &&& 1 <= o.timeout_seconds <= MAX_TIMEOUT_SECONDS
}

/// What reading keeps true of the settings: at most `MAX_LANGUAGES` languages and a
/// timeout in range.
pub open spec fn args_in_range(st: ArgView) -> bool {
    st.languages.len() <= MAX_LANGUAGES && 1 <= st.timeout_seconds <= MAX_TIMEOUT_SECONDS
}

/// `a`, the decimal digits of `n`, and `b`, as one string.
fn with_number(a: &str, n: u64, b: &str) -> (s: String)
    ensures
        s@ == a@ + decimal(n as nat) + b@,
{
    let mut v = chars_of(a);
    let mut d = decimal_chars(n);
    let mut w = chars_of(b);
    v.append(&mut d);
    v.append(&mut w);
    string_from_chars(&v)
}

/// Refuses an empty value of the option or argument `name`.
pub fn check_nonempty(name: &str, value: &str) -> (r: Result<(), String>)
    ensures
        match nonempty_check(name@, value@) {
            Ok(()) => r is Ok,
            Err(e) => r matches Err(m) && m@ == e,
        },
{
    if value.is_empty() {
        Err(concat(name, " must not be empty"))
    } else {
        Ok(())
    }
}

/// Refuses a value of the option or argument `name` longer than `maximum` bytes.
pub fn check_length(name: &str, value: &str, maximum: usize) -> (r: Result<(), String>)
    ensures
        match length_check(name@, value@, maximum as nat) {
            Ok(()) => r is Ok,
            Err(e) => r matches Err(m) && m@ == e,
        },
{
    if utf8_len(value) > maximum {
        let head = concat(name, " must be at most ");
        Err(with_number(head.as_str(), maximum as u64, " bytes"))
    } else {
        Ok(())
    }
}

fn check_filter(name: &str, value: &str) -> (r: Result<(), String>)
    ensures
        match filter_check(name@, value@) {
            Ok(()) => r is Ok,
            Err(e) => r matches Err(m) && m@ == e,
        },
{
    match check_nonempty(name, value) {
        Err(e) => Err(e),
        Ok(()) => check_length(name, value, MAX_FILTER_BYTES),
    }
}

fn check_optional(name: &str, value: &Option<String>) -> (r: Result<(), String>)
    ensures
        match optional_check(name@, opt_view(*value)) {
            Ok(()) => r is Ok,
            Err(e) => r matches Err(m) && m@ == e,
        },
{
    match value {
        None => Ok(()),
        Some(v) => check_filter(name, v.as_str()),
    }
}

/// The settings before any argument is read.
pub fn initial_state() -> (st: ArgState)
    ensures
        st@ == initial_args(),
{
    let st = ArgState {
        query: None,
        match_case: false,
        match_whole_words: false,
        use_regexp: false,
        repo: None,
        path: None,
        languages: Vec::new(),
        json: false,
        color: Color::Auto,
        timeout_seconds: DEFAULT_TIMEOUT_SECONDS,
    };
    assert(string_views(st.languages@) =~= seq![]);
    st
}

/// Whether the item `token`, read in `state`, consumes the next argument as its value.
pub fn needs_value(state: &ArgState, token: &ArgToken) -> (b: bool)
    ensures
        b == wants_value(state@, token@),
{
    match token {
        ArgToken::Long(n) => str_eq(n.as_str(), "repo") || str_eq(n.as_str(), "path") || str_eq(
            n.as_str(),
            "color",
        ) || str_eq(n.as_str(), "timeout") || (str_eq(n.as_str(), "language")
            && state.languages.len() < MAX_LANGUAGES),
        _ => false,
    }
}

fn value_text(name: &str, value: ValueToken) -> (r: Result<String, String>)
    ensures
        match value_of(name@, value@) {
            Ok(s) => r matches Ok(t) && t@ == s,
            Err(e) => r matches Err(m) && m@ == e,
        },
{
    match value {
        ValueToken::Text(s) => Ok(s),
        ValueToken::NonUnicode => Err(concat(name, " must be valid UTF-8")),
        ValueToken::Missing => Err(concat(name, " requires a value")),
    }
}

/// The value of an optional outcome: `None` while reading goes on.
pub open spec fn flow_matches(flow: Option<Result<ParseOutcome, String>>, st: ArgView, spec_flow: ArgFlow) -> bool {
    match spec_flow {
        ArgFlow::Continue(next) => flow is None && st == next,
        ArgFlow::Stop(r) => flow matches Some(x) && parse_result_view(x) == r,
    }
}

/// Applies one item read from the command line to the settings; `value` is the next
/// argument when `needs_value` asked for it. `None` means that reading goes on.
pub fn apply_arg(state: &mut ArgState, token: ArgToken, value: ValueToken) -> (flow: Option<
    Result<ParseOutcome, String>,
>)
    ensures
        flow_matches(flow, final(state)@, apply_token(old(state)@, token@, value@)),
{
    let ghost t = token@;
    let ghost v = value@;
    match token {
        ArgToken::Long(n) => {
            let name = n.as_str();
            if str_eq(name, "match-case") {
                state.match_case = true;
                None
            } else if str_eq(name, "match-whole-words") {
                state.match_whole_words = true;
                None
            } else if str_eq(name, "use-regexp") {
                state.use_regexp = true;
                None
            } else if str_eq(name, "repo") {
                match value_text("--repo", value) {
                    Ok(s) => {
                        state.repo = Some(s);
                        None
                    },
                    Err(e) => Some(Err(e)),
                }
            } else if str_eq(name, "path") {
                match value_text("--path", value) {
                    Ok(s) => {
                        state.path = Some(s);
                        None
                    },
                    Err(e) => Some(Err(e)),
                }
            } else if str_eq(name, "language") {
                if state.languages.len() == MAX_LANGUAGES {
                    Some(Err(with_number("at most ", MAX_LANGUAGES as u64, " --language filters are allowed")))
                } else {
                    match value_text("--language", value) {
                        Ok(s) => {
                            let ghost before = state.languages@;
                            state.languages.push(s);
                            assert(string_views(state.languages@) =~= string_views(before).push(
                                s@,
                            ));
                            None
                        },
                        Err(e) => Some(Err(e)),
                    }
                }
            } else if str_eq(name, "json") {
                state.json = true;
                None
            } else if str_eq(name, "color") {
                match value_text("--color", value) {
                    Ok(s) => {
                        if str_eq(s.as_str(), "auto") {
                            state.color = Color::Auto;
                            None
                        } else if str_eq(s.as_str(), "always") {
                            state.color = Color::Always;
                            None
                        } else if str_eq(s.as_str(), "never") {
                            state.color = Color::Never;
                            None
                        } else {
                            Some(Err("--color must be auto, always, or never".to_owned()))
                        }
                    },
                    Err(e) => Some(Err(e)),
                }
            } else if str_eq(name, "timeout") {
                match value_text("--timeout", value) {
                    Ok(s) => match parse_u64_chars(&chars_of(s.as_str())) {
                        None => Some(Err("--timeout must be a positive integer".to_owned())),
                        Some(seconds) => if seconds == 0 || seconds > MAX_TIMEOUT_SECONDS {
                            Some(Err(with_number("--timeout must be between 1 and ", MAX_TIMEOUT_SECONDS, " seconds")))
                        } else {
                            state.timeout_seconds = seconds;
                            None
                        },
                    },
                    Err(e) => Some(Err(e)),
                }
            } else if str_eq(name, "help") {
                Some(Ok(ParseOutcome::Help))
            } else if str_eq(name, "version") {
                Some(Ok(ParseOutcome::Version))
            } else {
                Some(Err(concat("unknown option --", name)))
            }
        },
        ArgToken::Short(c) => {
            if c == 'h' {
                Some(Ok(ParseOutcome::Help))
            } else if c == 'V' {
                Some(Ok(ParseOutcome::Version))
            } else {
                let mut v = chars_of("unknown option -");
                v.push(c);
                assert(v@ =~= "unknown option -"@ + seq![c]);
                Some(Err(string_from_chars(&v)))
            }
        },
        ArgToken::Value(s) => {
            if state.query.is_some() {
                Some(Err("only one QUERY may be supplied".to_owned()))
            } else {
                state.query = Some(s);
                None
            }
        },
        ArgToken::NonUnicodeValue => Some(Err("arguments must be valid UTF-8".to_owned())),
    }
}

/// Checks the settings once every argument is read: a query is required, and the
/// query and every filter must be non-empty and short enough.
pub fn finish_options(state: ArgState) -> (r: Result<ParseOutcome, String>)
    ensures
        parse_result_view(r) == finish_args(state@),
{
    let ghost st = state@;
    let query = match state.query {
        None => return Err("missing QUERY (use --help for usage)".to_owned()),
        Some(q) => q,
    };
    match check_nonempty("QUERY", query.as_str()) {
        Err(e) => return Err(e),
        Ok(()) => {},
    }
    match check_length("QUERY", query.as_str(), MAX_QUERY_BYTES) {
        Err(e) => return Err(e),
        Ok(()) => {},
    }
    match check_optional("--repo", &state.repo) {
        Err(e) => return Err(e),
        Ok(()) => {},
    }
    match check_optional("--path", &state.path) {
        Err(e) => return Err(e),
        Ok(()) => {},
    }
    let ghost ls = string_views(state.languages@);
    let mut i: usize = 0;
    assert(ls.take(0) =~= seq![]);
    while i < state.languages.len()
        invariant
            i <= state.languages.len(),
            ls == string_views(state.languages@),
            ls == st.languages,
            st == state@,
            languages_check(ls.take(i as int)) == Ok::<(), Seq<char>>(()),
            finish_args(st) == (match languages_check(ls) {
                Err(e) => Err(e),
                Ok(()) => Ok(OutcomeView::Run(st)),
            }),
        decreases state.languages.len() - i,
    {
        assert(ls.take(i + 1).drop_last() == ls.take(i as int));
        assert(ls.take(i + 1).last() == state.languages@[i as int]@);
        match check_filter("--language", state.languages[i].as_str()) {
            Err(e) => {
                proof {
                    lemma_languages_failure_stays(ls, i + 1);
                }
                return Err(e);
            },
            Ok(()) => {},
        }
        i = i + 1;
    }
    assert(ls.take(state.languages.len() as int) == ls);
    let options = Options {
        query: query,
        match_case: state.match_case,
        match_whole_words: state.match_whole_words,
        use_regexp: state.use_regexp,
        repo: state.repo,
        path: state.path,
        languages: state.languages,
        json: state.json,
        color: state.color,
        timeout_seconds: state.timeout_seconds,
    };
    Ok(ParseOutcome::Run(options))
}

proof fn lemma_languages_failure_stays(ls: Seq<Seq<char>>, k: int)
    requires
        0 <= k <= ls.len(),
        languages_check(ls.take(k)) is Err,
    ensures
        languages_check(ls) == languages_check(ls.take(k)),
    decreases ls.len() - k,
{
    if k < ls.len() {
        assert(ls.drop_last().take(k) == ls.take(k));
        lemma_languages_failure_stays(ls.drop_last(), k);
    } else {
        assert(ls.take(k) == ls);
    }
}

proof fn lemma_languages_check_valid(ls: Seq<Seq<char>>)
    requires
        languages_check(ls) is Ok,
    ensures
        forall|i: int|
            0 <= i < ls.len() ==> #[trigger] ls[i].len() > 0 && encode_utf8(ls[i]).len()
                <= MAX_FILTER_BYTES,
    decreases ls.len(),
{
    if ls.len() > 0 {
        lemma_languages_check_valid(ls.drop_last());
        assert forall|i: int| 0 <= i < ls.len() implies #[trigger] ls[i].len() > 0 && encode_utf8(
            ls[i],
        ).len() <= MAX_FILTER_BYTES by {
            if i < ls.len() - 1 {
                assert(ls[i] == ls.drop_last()[i]);
            }
        }
    }
}

/// Settings that pass the final checks, read with every limit kept, respect every
/// input limit.
pub proof fn lemma_finish_args_valid(st: ArgView)
    requires
        args_in_range(st),
    ensures
        finish_args(st) matches Ok(OutcomeView::Run(o)) ==> options_valid(o),
{
    if let Ok(OutcomeView::Run(o)) = finish_args(st) {
        lemma_languages_check_valid(st.languages);
    }
}

/// Where the argument lexer stands inside the argument it last read.
pub enum LexMode {
    /// Between arguments.
    Idle,
    /// After `--name=value`, with `value` not yet taken.
    Pending(Seq<char>),
    /// Inside a cluster of short options `-abc`, with these characters still to come.
    Cluster(Seq<char>),
    /// After `--`: every further argument is a positional argument.
    AfterDashes,
}

/// What the argument lexer holds: the arguments not yet read, where it stands inside the
/// last one, and the last option it handed out (`-c`, or `--name` with its dashes).
pub struct LexState {
    pub rest: Seq<Seq<char>>,
    pub mode: LexMode,
    pub last: Option<Seq<char>>,
}

/// `lexopt::Parser`, the command-line lexer.
#[verifier::external_type_specification]
#[verifier::external_body]
pub struct ExLexer(lexopt::Parser);

/// What a `lexopt::Parser` holds.
pub uninterp spec fn lexer_state(lexer: lexopt::Parser) -> LexState;

/// The text of `lexopt::Error::UnexpectedValue` for `option` and `value`, as its
/// `Display` writes it.
pub uninterp spec fn unexpected_value_text(option: Seq<char>, value: Seq<char>) -> Seq<char>;

/// What the lexer hands over next.
pub enum LexItem {
    /// An option or a positional argument.
    Token(TokenView),
    /// The command line is exhausted.
    End,
    /// An option carried a value that nobody took: the option and the value.
    Unexpected(Seq<char>, Seq<char>),
}

/// A lexer state that can arise: a pending value or a cluster follows an option.
pub open spec fn lex_wf(st: LexState) -> bool {
    (st.mode is Pending || st.mode is Cluster) ==> st.last is Some
}

/// The index of the first `=` in `s`.
pub open spec fn eq_index(s: Seq<char>) -> Option<int>
    decreases s.len(),
{
    if s.len() == 0 {
        None
    } else if s[0] == '=' {
        Some(0)
    } else {
        match eq_index(s.drop_first()) {
            Some(k) => Some(k + 1),
            None => None,
        }
    }
}

/// Reading a new argument: `--` ends the options; `--name` or `--name=value` is a long
/// option; `-abc` (more than a dash) starts a cluster of short options; anything else
/// is a positional argument.
pub open spec fn lex_take(st: LexState) -> (LexItem, LexState) {
    if st.rest.len() == 0 {
        (LexItem::End, LexState { mode: LexMode::Idle, ..st })
    } else {
        let arg = st.rest[0];
        let rest = st.rest.drop_first();
        if arg == "--"@ {
            if rest.len() == 0 {
                (LexItem::End, LexState { rest: rest, mode: LexMode::AfterDashes, last: st.last })
            } else {
                (
                    LexItem::Token(TokenView::Value(rest[0])),
                    LexState { rest: rest.drop_first(), mode: LexMode::AfterDashes, last: st.last },
                )
            }
        } else if has_prefix(arg, "--"@) {
            match eq_index(arg) {
                Some(k) => (
                    LexItem::Token(TokenView::Long(arg.subrange(2, k))),
                    LexState {
                        rest: rest,
                        mode: LexMode::Pending(arg.skip(k + 1)),
                        last: Some(arg.take(k)),
                    },
                ),
                None => (
                    LexItem::Token(TokenView::Long(arg.skip(2))),
                    LexState { rest: rest, mode: LexMode::Idle, last: Some(arg) },
                ),
            }
        } else if arg.len() > 1 && arg[0] == '-' {
            (
                LexItem::Token(TokenView::Short(arg[1])),
                LexState {
                    rest: rest,
                    mode: LexMode::Cluster(arg.skip(2)),
                    last: Some(seq!['-', arg[1]]),
                },
            )
        } else {
            (
                LexItem::Token(TokenView::Value(arg)),
                LexState { rest: rest, mode: LexMode::Idle, last: st.last },
            )
        }
    }
}

/// What `lexopt::Parser::next` hands over, and the lexer after it: a value left
/// pending after `--name=value`, or after `=` inside a cluster, is refused.
pub open spec fn lex_next(st: LexState) -> (LexItem, LexState) {
    match st.mode {
        LexMode::Pending(v) => (
            LexItem::Unexpected(st.last.unwrap(), v),
            LexState { mode: LexMode::Idle, ..st },
        ),
        LexMode::Cluster(c) => if c.len() == 0 {
            lex_take(st)
        } else if c[0] == '=' {
            (
                LexItem::Unexpected(st.last.unwrap(), c.drop_first()),
                LexState { mode: LexMode::Idle, ..st },
            )
        } else {
            (
                LexItem::Token(TokenView::Short(c[0])),
                LexState {
                    mode: LexMode::Cluster(c.drop_first()),
                    last: Some(seq!['-', c[0]]),
                    ..st
                },
            )
        },
        LexMode::AfterDashes => if st.rest.len() == 0 {
            (LexItem::End, st)
        } else {
            (
                LexItem::Token(TokenView::Value(st.rest[0])),
                LexState { rest: st.rest.drop_first(), ..st },
            )
        },
        LexMode::Idle => lex_take(st),
    }
}

/// The next whole argument as a value.
pub open spec fn lex_next_arg(st: LexState) -> (Option<Seq<char>>, LexState) {
    if st.rest.len() == 0 {
        (None, st)
    } else {
        (Some(st.rest[0]), LexState { rest: st.rest.drop_first(), ..st })
    }
}

/// What `lexopt::Parser::value` hands over for the option just read, and the lexer
/// after it: a pending `=value`, the rest of a cluster (without one leading `=`), or
/// else the next argument, whatever it looks like.
pub open spec fn lex_value(st: LexState) -> (Option<Seq<char>>, LexState) {
    match st.mode {
        LexMode::Pending(v) => (Some(v), LexState { mode: LexMode::Idle, ..st }),
        LexMode::Cluster(c) => if c.len() == 0 {
            lex_next_arg(LexState { mode: LexMode::Idle, ..st })
        } else if c[0] == '=' {
            (Some(c.drop_first()), LexState { mode: LexMode::Idle, ..st })
        } else {
            (Some(c), LexState { mode: LexMode::Idle, ..st })
        },
        _ => lex_next_arg(st),
    }
}

/// The value of an optional option value.
pub open spec fn value_view(v: Option<Seq<char>>) -> ValueView {
    match v {
        Some(s) => ValueView::Text(s),
        None => ValueView::Missing,
    }
}

/// The lexer over `args`, before anything is read.
pub open spec fn lexer_start(args: Seq<Seq<char>>) -> LexState {
    LexState { rest: args, mode: LexMode::Idle, last: None }
}

/// `lexopt::Parser::from_args`: a lexer over `args`, which do not include the program
/// name.
#[verifier::external_body]
fn lexer_over(args: Vec<String>) -> (lexer: lexopt::Parser)
    ensures
        lexer_state(lexer) == lexer_start(string_views(args@)),
{
    lexopt::Parser::from_args(args)
}

/// `lexopt::Parser::next`: the next option or positional argument (`Ok(None)` once the
/// command line is exhausted), or the text of the lexer's error, as `lex_next` states.
#[verifier::external_body]
fn next_item(lexer: &mut lexopt::Parser) -> (r: Result<Option<ArgToken>, String>)
    requires
        lex_wf(lexer_state(*old(lexer))),
    ensures
        match lex_next(lexer_state(*old(lexer))) {
            (LexItem::Token(t), s) => r matches Ok(Some(x)) && x@ == t && lexer_state(
                *final(lexer),
            ) == s,
            (LexItem::End, s) => r matches Ok(None) && lexer_state(*final(lexer)) == s,
            (LexItem::Unexpected(o, v), s) => r matches Err(e) && e@ == unexpected_value_text(o, v)
                && lexer_state(*final(lexer)) == s,
        },
{
    match lexer.next() {
        Ok(None) => Ok(None),
        Ok(Some(lexopt::Arg::Short(c))) => Ok(Some(ArgToken::Short(c))),
        Ok(Some(lexopt::Arg::Long(name))) => Ok(Some(ArgToken::Long(name.to_owned()))),
        Ok(Some(lexopt::Arg::Value(v))) => Ok(Some(match v.into_string() {
            Ok(text) => ArgToken::Value(text),
            Err(_) => ArgToken::NonUnicodeValue,
        })),
        Err(e) => Err(e.to_string()),
    }
}

/// `lexopt::Parser::value`: the value of the option just read, or missing (its only
/// error), as `lex_value` states.
#[verifier::external_body]
fn next_value(lexer: &mut lexopt::Parser) -> (r: ValueToken)
    requires
        lex_wf(lexer_state(*old(lexer))),
    ensures
        match lex_value(lexer_state(*old(lexer))) {
            (Some(v), s) => r matches ValueToken::Text(t) && t@ == v && lexer_state(*final(lexer))
                == s,
            (None, s) => r is Missing && lexer_state(*final(lexer)) == s,
        },
{
    match lexer.value() {
        Ok(v) => match v.into_string() {
            Ok(text) => ValueToken::Text(text),
            Err(_) => ValueToken::NonUnicode,
        },
        Err(_) => ValueToken::Missing,
    }
}

/// The weight of the arguments not yet read: each counts its length and two more.
pub open spec fn args_weight(rest: Seq<Seq<char>>) -> nat
    decreases rest.len(),
{
    if rest.len() == 0 {
        0
    } else {
        rest[0].len() + 2 + args_weight(rest.drop_first())
    }
}

/// A measure of what the lexer still holds.
pub open spec fn lex_measure(st: LexState) -> nat {
    args_weight(st.rest) + match st.mode {
        LexMode::Pending(_) => 1nat,
        LexMode::Cluster(c) => c.len() + 1,
        _ => 0nat,
    }
}

proof fn lemma_eq_index(s: Seq<char>)
    ensures
        eq_index(s) matches Some(k) ==> 0 <= k < s.len() && s[k] == '=' && forall|j: int|
            0 <= j < k ==> s[j] != '=',
        eq_index(s) is None ==> forall|j: int| 0 <= j < s.len() ==> s[j] != '=',
    decreases s.len(),
{
    if s.len() > 0 {
        lemma_eq_index(s.drop_first());
        assert forall|j: int| 1 <= j < s.len() implies s[j] == s.drop_first()[j - 1] by {}
    }
}

proof fn lemma_lex_take(st: LexState)
    ensures
        lex_wf(lex_take(st).1),
        lex_take(st).0 is Token ==> lex_measure(lex_take(st).1) < args_weight(st.rest),
        lex_measure(lex_take(st).1) <= args_weight(st.rest),
        lex_take(st).0 is Token || lex_take(st).0 is End,
{
    if st.rest.len() > 0 {
        let arg = st.rest[0];
        let rest = st.rest.drop_first();
        if arg == "--"@ {
            if rest.len() > 0 {
                assert(args_weight(rest) == rest[0].len() + 2 + args_weight(rest.drop_first()));
            }
        } else if has_prefix(arg, "--"@) {
            lemma_eq_index(arg);
        }
    }
}

/// Every item handed over leaves the lexer with less to read, and taking a value never
/// adds to it.
pub proof fn lemma_lex_progress(st: LexState)
    requires
        lex_wf(st),
    ensures
        lex_wf(lex_next(st).1),
        lex_next(st).0 is Token ==> lex_measure(lex_next(st).1) < lex_measure(st),
        lex_wf(lex_value(st).1),
        lex_measure(lex_value(st).1) <= lex_measure(st),
{
    match st.mode {
        LexMode::Cluster(c) => {
            if c.len() == 0 {
                lemma_lex_take(st);
            }
        },
        LexMode::Idle => {
            lemma_lex_take(st);
        },
        _ => {},
    }
}

/// The outcome of reading the command line that the lexer in state `st` still holds,
/// with settings `a` so far: each option is applied as it comes, taking the next value
/// when it wants one, until an option stops the reading or the command line ends and
/// the final checks decide.
pub open spec fn read_command_line(st: LexState, a: ArgView) -> Result<OutcomeView, Seq<char>>
    decreases lex_measure(st),
{
    if !lex_wf(st) {
        Err(seq![])
    } else {
        match lex_next(st) {
            (LexItem::Unexpected(o, v), _) => Err("invalid arguments: "@ + unexpected_value_text(o, v)),
            (LexItem::End, _) => finish_args(a),
            (LexItem::Token(t), s1) => {
                let (v, s2) = if wants_value(a, t) {
                    lex_value(s1)
                } else {
                    (None, s1)
                };
                match apply_token(a, t, value_view(v)) {
                    ArgFlow::Continue(next) => {
                        proof {
                            lemma_lex_progress(st);
                            lemma_lex_progress(s1);
                        }
                        read_command_line(s2, next)
                    },
                    ArgFlow::Stop(r) => r,
                }
            },
        }
    }
}

/// The outcome of the command line `args` (without the program name).
pub open spec fn command_line_outcome(args: Seq<Seq<char>>) -> Result<OutcomeView, Seq<char>> {
    read_command_line(lexer_start(args), initial_args())
}

proof fn lemma_apply_in_range(st: ArgView, t: TokenView, v: ValueView)
    requires
        args_in_range(st),
    ensures
        apply_token(st, t, v) matches ArgFlow::Continue(next) ==> args_in_range(next),
        !(apply_token(st, t, v) matches ArgFlow::Stop(Ok(OutcomeView::Run(_)))),
{
}

proof fn lemma_read_command_line_valid(st: LexState, a: ArgView)
    requires
        args_in_range(a),
    ensures
        read_command_line(st, a) matches Ok(OutcomeView::Run(o)) ==> options_valid(o),
    decreases lex_measure(st),
{
    if lex_wf(st) {
        lemma_lex_progress(st);
        match lex_next(st) {
            (LexItem::End, _) => {
                lemma_finish_args_valid(a);
            },
            (LexItem::Token(t), s1) => {
                lemma_lex_progress(s1);
                let (v, s2) = if wants_value(a, t) {
                    lex_value(s1)
                } else {
                    (None, s1)
                };
                lemma_apply_in_range(a, t, value_view(v));
                if let ArgFlow::Continue(next) = apply_token(a, t, value_view(v)) {
                    lemma_read_command_line_valid(s2, next);
                }
            },
            _ => {},
        }
    }
}

/// Whatever the command line, a `Run` outcome respects every input limit.
pub proof fn lemma_command_line_valid(args: Seq<Seq<char>>)
    ensures
        command_line_outcome(args) matches Ok(OutcomeView::Run(o)) ==> options_valid(o),
{
    lemma_read_command_line_valid(lexer_start(args), initial_args());
}

/// `--color` with `auto`, `always` or `never` sets the color policy of that name (three
/// different policies) and changes no other setting.
pub proof fn lemma_color_option_sets_policy(st: ArgView)
    ensures
        apply_token(st, TokenView::Long("color"@), ValueView::Text("auto"@)) == ArgFlow::Continue(
            ArgView { color: Color::Auto, ..st },
        ),
        apply_token(st, TokenView::Long("color"@), ValueView::Text("always"@))
            == ArgFlow::Continue(ArgView { color: Color::Always, ..st }),
        apply_token(st, TokenView::Long("color"@), ValueView::Text("never"@)) == ArgFlow::Continue(
            ArgView { color: Color::Never, ..st },
        ),
{
    reveal_strlit("color");
    reveal_strlit("auto");
    reveal_strlit("always");
    reveal_strlit("never");
    reveal_strlit("match-case");
    reveal_strlit("match-whole-words");
    reveal_strlit("use-regexp");
    reveal_strlit("repo");
    reveal_strlit("path");
    reveal_strlit("language");
    reveal_strlit("json");
    assert("color"@ != "match-case"@);
    assert("color"@ != "match-whole-words"@);
    assert("color"@ != "use-regexp"@);
    assert("color"@ != "repo"@);
    assert("color"@ != "path"@);
    assert("color"@ != "language"@);
    assert("color"@ != "json"@);
    assert("always"@ != "auto"@);
    assert("never"@ != "auto"@ && "never"@ != "always"@);
}

/// The command line `--color <name> <query>`, for a query that is short enough and
/// does not look like an option, runs with the policy `name` names and every other
/// setting at its default.
pub proof fn lemma_color_command_line(name: Seq<char>, query: Seq<char>)
    requires
        name == "auto"@ || name == "always"@ || name == "never"@,
        query.len() > 0,
        query[0] != '-',
        encode_utf8(query).len() <= MAX_QUERY_BYTES,
    ensures
        command_line_outcome(seq!["--color"@, name, query]) == Ok::<OutcomeView, Seq<char>>(
            OutcomeView::Run(
                ArgView {
                    query: Some(query),
                    color: if name == "auto"@ {
                        Color::Auto
                    } else if name == "always"@ {
                        Color::Always
                    } else {
                        Color::Never
                    },
                    ..initial_args()
                },
            ),
        ),
{
    reveal_strlit("--color");
    reveal_strlit("--");
    reveal_strlit("color");
    reveal_strlit("repo");
    reveal_strlit("path");
    reveal_strlit("timeout");
    reveal_strlit("language");
    let opt = "--color"@;
    let st0 = lexer_start(seq![opt, name, query]);
    assert(opt != "--"@);
    assert(has_prefix(opt, "--"@)) by {
        assert(opt.take(2) =~= "--"@);
    }
    lemma_eq_index(opt);
    assert(opt.skip(2) =~= "color"@);
    let (item1, st1) = lex_next(st0);
    assert(item1 == LexItem::Token(TokenView::Long("color"@)));
    assert(st1.rest =~= seq![name, query]);
    assert(wants_value(initial_args(), TokenView::Long("color"@)));
    let (v, st2) = lex_value(st1);
    assert(v == Some(name));
    assert(st2.rest =~= seq![query]);
    lemma_color_option_sets_policy(initial_args());
    let policy = if name == "auto"@ {
        Color::Auto
    } else if name == "always"@ {
        Color::Always
    } else {
        Color::Never
    };
    let a1 = ArgView { color: policy, ..initial_args() };
    assert(apply_token(initial_args(), TokenView::Long("color"@), ValueView::Text(name))
        == ArgFlow::Continue(a1));
    assert(query != "--"@) by {
        assert("--"@[0] == '-');
    }
    assert(!has_prefix(query, "--"@)) by {
        if has_prefix(query, "--"@) {
            assert(query.take(2)[0] == "--"@[0]);
        }
    }
    let (item3, st3) = lex_next(st2);
    assert(item3 == LexItem::Token(TokenView::Value(query)));
    assert(st3.rest.len() == 0);
    let a2 = ArgView { query: Some(query), ..a1 };
    assert(apply_token(a1, TokenView::Value(query), ValueView::Missing) == ArgFlow::Continue(a2));
    assert(lex_next(st3).0 == LexItem::End);
    assert(nonempty_check("QUERY"@, query) is Ok);
    assert(length_check("QUERY"@, query, MAX_QUERY_BYTES as nat) is Ok);
    assert(a2.languages.len() == 0);
    assert(languages_check(a2.languages) is Ok);
    assert(finish_args(a2) == Ok::<OutcomeView, Seq<char>>(OutcomeView::Run(a2)));
    assert(read_command_line(st3, a2) == finish_args(a2));
    assert(read_command_line(st2, a1) == read_command_line(st3, a2));
    assert(read_command_line(st0, initial_args()) == read_command_line(st2, a1));
}

/// Parses the command-line arguments (without the program name), returning clear
/// user-facing errors: the outcome is what the rules make of the items that `lexopt`
/// hands over for `args`, and every `Run` outcome respects every input limit.
pub fn parse(args: Vec<String>) -> (r: Result<ParseOutcome, String>)
    ensures
        parse_result_view(r) == command_line_outcome(string_views(args@)),
        r matches Ok(ParseOutcome::Run(o)) ==> options_valid(o@),
{
    let ghost goal = command_line_outcome(string_views(args@));
    proof {
        lemma_command_line_valid(string_views(args@));
    }
    let ghost arg_views = string_views(args@);
    let mut lexer = lexer_over(args);
    let mut state = initial_state();
    loop
        invariant
            goal == command_line_outcome(arg_views),
            arg_views == string_views(args@),
            lex_wf(lexer_state(lexer)),
            read_command_line(lexer_state(lexer), state@) == goal,
            goal matches Ok(OutcomeView::Run(o)) ==> options_valid(o),
        decreases lex_measure(lexer_state(lexer)),
    {
        let ghost st = lexer_state(lexer);
        let ghost a = state@;
        proof {
            lemma_lex_progress(st);
        }
        let token = match next_item(&mut lexer) {
            Err(e) => {
                let r = Err(concat("invalid arguments: ", e.as_str()));
                proof {
                    assert(lex_next(st).0 matches LexItem::Unexpected(o, v) && e@
                        == unexpected_value_text(o, v));
                    assert(parse_result_view(r) == read_command_line(st, a));
                }
                return r;
            },
            Ok(None) => {
                return finish_options(state);
            },
            Ok(Some(t)) => t,
        };
        let ghost s1 = lexer_state(lexer);
        proof {
            lemma_lex_progress(s1);
        }
        let value = if needs_value(&state, &token) {
            next_value(&mut lexer)
        } else {
            ValueToken::Missing
        };
        match apply_arg(&mut state, token, value) {
            None => {},
            Some(outcome) => {
                proof {
                    assert(lex_next(st).0 == LexItem::Token(token@));
                    assert(parse_result_view(outcome) == read_command_line(st, a));
                }
                return outcome;
            },
        }
    }
}

} // verus!
