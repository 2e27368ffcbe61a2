//! Stateful parser for grep.app's human-formatted search tool text.

use vstd::prelude::*;
use vstd::utf8::encode_utf8;
use crate::{ResultView, SearchResult, Snippet, SnippetView, result_views, snippet_views};
use crate::sanitize::{
    lemma_sanitize_char_safe, lemma_sanitized_is_terminal_safe, lemma_sanitized_len, needs_escape,
    push_sanitized, push_sanitized_char, sanitize_char, sanitized, terminal_safe,
};
use crate::text::{
    all_digits, decimal, digit_char, digits_value, has_prefix, has_suffix, is_digit, occurs_at,
    rfind_from,
    unsigned_digits,
    chars_of, lines, lines_of, parse_u64, parse_u64_chars, rsplit_once, rsplit_once_chars,
    string_from_chars, strip_prefix, strip_prefix_chars, strip_suffix,
    strip_suffix_chars, trim, trim_chars, utf8_len, views, join, pieces_from, split_newlines,
    same_chars,
};

verus! {

/// The most results that a search may return, over all its text items.
pub const MAX_RESULTS: usize = 200;

/// The most snippets that one result may hold.
pub const MAX_SNIPPETS_PER_RESULT: usize = 200;

/// The most UTF-8 bytes that one snippet's raw text may hold.
pub const MAX_SNIPPET_BYTES: usize = 256 * 1024;

/// The number of bytes in the UTF-8 encoding of `s`, as `str::len` counts them.
pub open spec fn byte_len(s: Seq<char>) -> nat {
    encode_utf8(s).len()
}

/// `s` with each `\n` kept and every other character sanitized: every line of the
/// text is escaped on its own, and the newlines that delimit them stay.
pub open spec fn escape_lines(s: Seq<char>) -> Seq<char>
    decreases s.len(),
{
    if s.len() == 0 {
        seq![]
    } else if s.last() == '\n' {
        escape_lines(s.drop_last()).push('\n')
    } else {
        escape_lines(s.drop_last()) + sanitize_char(s.last())
    }
}

/// The four metadata values of a complete six-line result header starting at line `at`:
/// `Repository: `, `Path: `, `URL: ` and `License: ` lines with non-empty values, an
/// empty line, and a `Snippets:` line.
pub open spec fn header_fields(lines: Seq<Seq<char>>, at: int) -> Option<
    (Seq<char>, Seq<char>, Seq<char>, Seq<char>),
> {
    if 0 <= at && at + 6 <= lines.len() {
        match (
            strip_prefix(lines[at], "Repository: "@),
            strip_prefix(lines[at + 1], "Path: "@),
            strip_prefix(lines[at + 2], "URL: "@),
            strip_prefix(lines[at + 3], "License: "@),
        ) {
            (Some(repository), Some(path), Some(url), Some(license)) => {
                if repository.len() > 0 && path.len() > 0 && url.len() > 0 && license.len() > 0
                    && lines[at + 4].len() == 0 && lines[at + 5] == "Snippets:"@ {
                    Some((repository, path, url, license))
                } else {
                    None
                }
            },
            _ => None,
        }
    } else {
        None
    }
}

/// The source line of a snippet header `--- Snippet <ordinal> (Line <line>) ---`, where
/// both numbers must be positive `u64`s.
pub open spec fn snippet_line(line: Seq<char>) -> Option<u64> {
    match strip_prefix(line, "--- Snippet "@) {
        None => None,
        Some(after) => match strip_suffix(after, " ---"@) {
            None => None,
            Some(middle) => match rsplit_once(middle, " (Line "@) {
                None => None,
                Some((ordinal, rest)) => match parse_u64(ordinal) {
                    Some(o) if o > 0 => match strip_suffix(rest, ")"@) {
                        None => None,
                        Some(number) => match parse_u64(number) {
                            Some(n) if n > 0 => Some(n),
                            _ => None,
                        },
                    },
                    _ => None,
                },
            },
        },
    }
}

/// A snippet being assembled, retaining whether an empty first source line was received.
pub struct PendingSnippet {
    pub snippet: Snippet,
    pub has_source_lines: bool,
}

/// The value of a snippet being assembled: its line, its raw text so far, and whether
/// a source line has been received.
pub struct PendingView {
    pub line: u64,
    pub text: Seq<char>,
    pub has_source_lines: bool,
}

impl View for PendingSnippet {
    type V = PendingView;

    open spec fn view(&self) -> PendingView {
        PendingView {
            line: self.snippet.line,
            text: self.snippet.text@,
            has_source_lines: self.has_source_lines,
        }
    }
}

/// The value of an optional result.
pub open spec fn opt_result_view(r: Option<SearchResult>) -> Option<ResultView> {
    match r {
        Some(x) => Some(x@),
        None => None,
    }
}

/// The value of an optional pending snippet.
pub open spec fn opt_pending_view(p: Option<PendingSnippet>) -> Option<PendingView> {
    match p {
        Some(x) => Some(x@),
        None => None,
    }
}

/// The value of a result of the library: its results, or its error message.
pub open spec fn outcome_view(r: Result<Vec<SearchResult>, String>) -> Result<
    Seq<ResultView>,
    Seq<char>,
> {
    match r {
        Ok(v) => Ok(result_views(v@)),
        Err(e) => Err(e@),
    }
}

/// The current result after the pending snippet, if any, is closed: its text is
/// escaped line by line and it is appended to the current result, which may hold
/// at most `MAX_SNIPPETS_PER_RESULT` snippets.
pub open spec fn finish_pending(current: Option<ResultView>, pending: Option<PendingView>) -> Result<
    Option<ResultView>,
    Seq<char>,
> {
    match pending {
        None => Ok(current),
        Some(p) => match current {
            None => Err("snippet without result"@),
            Some(r) => if r.snippets.len() == MAX_SNIPPETS_PER_RESULT {
                Err("server returned too many snippets"@)
            } else {
                Ok(
                    Some(
                        ResultView {
                            snippets: r.snippets.push(
                                SnippetView { line: p.line, text: escape_lines(p.text) },
                            ),
                            ..r
                        },
                    ),
                )
            },
        },
    }
}

/// Appends the text `s` with each line escaped on its own to `out`.
fn push_escaped_lines(out: &mut Vec<char>, s: &Vec<char>)
    ensures
        final(out)@ == old(out)@ + escape_lines(s@),
{
    let mut i: usize = 0;
    let ghost start = out@;
    while i < s.len()
        invariant
            i <= s.len(),
            out@ == start + escape_lines(s@.take(i as int)),
        decreases s.len() - i,
    {
        assert(s@.take(i + 1).drop_last() == s@.take(i as int));
        assert(s@.take(i + 1).last() == s@[i as int]);
        if s[i] == '\n' {
            out.push('\n');
        } else {
            push_sanitized_char(out, s[i]);
        }
        i = i + 1;
    }
    assert(s@.take(s.len() as int) == s@);
}

/// A result begins only with the entire six-line metadata sequence, not a
/// metadata-looking line in code.
fn result_header(lines: &Vec<Vec<char>>, at: usize) -> (r: Option<
    (Vec<char>, Vec<char>, Vec<char>, Vec<char>),
>)
    ensures
        r matches Some(h) ==> header_fields(views(lines@), at as int) == Some(
            (h.0@, h.1@, h.2@, h.3@),
        ),
        r is None ==> header_fields(views(lines@), at as int) is None,
{
    let ghost l = views(lines@);
    if at > lines.len() || lines.len() - at < 6 {
        return None;
    }
    assert(l[at as int] == lines@[at as int]@);
    assert(l[at + 1] == lines@[at + 1]@);
    assert(l[at + 2] == lines@[at + 2]@);
    assert(l[at + 3] == lines@[at + 3]@);
    assert(l[at + 4] == lines@[at + 4]@);
    assert(l[at + 5] == lines@[at + 5]@);
    let repository = strip_prefix_chars(&lines[at], &chars_of("Repository: "));
    let path = strip_prefix_chars(&lines[at + 1], &chars_of("Path: "));
    let url = strip_prefix_chars(&lines[at + 2], &chars_of("URL: "));
    let license = strip_prefix_chars(&lines[at + 3], &chars_of("License: "));
    match (repository, path, url, license) {
        (Some(repository), Some(path), Some(url), Some(license)) => {
            if repository.len() > 0 && path.len() > 0 && url.len() > 0 && license.len() > 0
                && lines[at + 4].len() == 0 && same_chars(&lines[at + 5], &chars_of("Snippets:")) {
                Some((repository, path, url, license))
            } else {
                None
            }
        },
        _ => None,
    }
}

/// The source line of a snippet header, on characters.
fn snippet_header_chars(line: &Vec<char>) -> (r: Option<u64>)
    ensures
        r == snippet_line(line@),
{
    let after = match strip_prefix_chars(line, &chars_of("--- Snippet ")) {
        Some(a) => a,
        None => return None,
    };
    let middle = match strip_suffix_chars(&after, &chars_of(" ---")) {
        Some(m) => m,
        None => return None,
    };
    let (ordinal, rest) = match rsplit_once_chars(&middle, &chars_of(" (Line ")) {
        Some(pair) => pair,
        None => return None,
    };
    match parse_u64_chars(&ordinal) {
        Some(o) => {
            if o == 0 {
                return None;
            }
        },
        None => return None,
    }
    let number = match strip_suffix_chars(&rest, &chars_of(")")) {
        Some(n) => n,
        None => return None,
    };
    match parse_u64_chars(&number) {
        Some(n) => if n > 0 {
            Some(n)
        } else {
            None
        },
        None => None,
    }
}

/// The source line of a snippet header `--- Snippet <ordinal> (Line <line>) ---`, whose
/// ordinal and line must both be positive integers.
pub fn snippet_header(line: &str) -> (r: Option<u64>)
    ensures
        r == snippet_line(line@),
{
    snippet_header_chars(&chars_of(line))
}

/// Closes the pending snippet, if any: its text is escaped line by line (newlines are
/// structural delimiters, so every server-controlled line is escaped independently)
/// and it is appended to the current result.
fn finish_snippet(result: &mut Option<SearchResult>, snippet: &mut Option<PendingSnippet>) -> (r:
    Result<(), String>)
    ensures
        *final(snippet) is None,
        match finish_pending(opt_result_view(*old(result)), opt_pending_view(*old(snippet))) {
            Err(e) => r matches Err(m) && m@ == e && *final(result) == *old(result),
            Ok(c) => r is Ok && opt_result_view(*final(result)) == c,
        },
{
    let taken = snippet.take();
    match taken {
        None => Ok(()),
        Some(pending) => {
            let full = match result {
                Some(current) => current.snippets.len() == MAX_SNIPPETS_PER_RESULT,
                None => return Err("snippet without result".to_owned()),
            };
            if full {
                return Err("server returned too many snippets".to_owned());
            }
            let mut current = result.take().unwrap();
            let raw = chars_of(pending.snippet.text.as_str());
            let mut escaped: Vec<char> = Vec::new();
            push_escaped_lines(&mut escaped, &raw);
            let finished = Snippet { line: pending.snippet.line, text: string_from_chars(&escaped) };
            let ghost before = current.snippets@;
            current.snippets.push(finished);
            assert(snippet_views(current.snippets@) =~= snippet_views(before).push(finished@));
            *result = Some(current);
            Ok(())
        },
    }
}

/// The state of the parser between two lines: the results closed so far, the result
/// being filled, and the snippet being assembled.
pub struct ParseState {
    pub results: Seq<ResultView>,
    pub current: Option<ResultView>,
    pub pending: Option<PendingView>,
}

/// The state before the first line.
pub open spec fn initial_state() -> ParseState {
    ParseState { results: seq![], current: None, pending: None }
}

/// `results` with `current` appended when there is one.
pub open spec fn close_current(results: Seq<ResultView>, current: Option<ResultView>) -> Seq<
    ResultView,
> {
    match current {
        Some(c) => results.push(c),
        None => results,
    }
}

/// What the parser does with line `i` in state `st`: the index of the next line to
/// read and the new state, or the error that ends the parse.
pub open spec fn step(lines: Seq<Seq<char>>, i: int, st: ParseState) -> Result<
    (int, ParseState),
    Seq<char>,
> {
    match header_fields(lines, i) {
        Some((repository, path, url, license)) => match finish_pending(st.current, st.pending) {
            Err(e) => Err(e),
            Ok(closed) => Ok(
                (
                    i + 6,
                    ParseState {
                        results: close_current(st.results, closed),
                        current: Some(
                            ResultView {
                                repository: sanitized(repository),
                                path: sanitized(path),
                                url: sanitized(url),
                                license: sanitized(license),
                                snippets: seq![],
                            },
                        ),
                        pending: None,
                    },
                ),
            ),
        },
        None => match st.current {
            None => Err("server search text does not begin with a complete result header"@),
            Some(current) => if lines[i] == "Snippets:"@ {
                Ok((i + 1, st))
            } else {
                match snippet_line(lines[i]) {
                    Some(line) => match finish_pending(st.current, st.pending) {
                        Err(e) => Err(e),
                        Ok(closed) => Ok(
                            (
                                i + 1,
                                ParseState {
                                    results: st.results,
                                    current: closed,
                                    pending: Some(
                                        PendingView {
                                            line: line,
                                            text: seq![],
                                            has_source_lines: false,
                                        },
                                    ),
                                },
                            ),
                        ),
                    },
                    None => match st.pending {
                        Some(p) => {
                            let text = if p.has_source_lines {
                                p.text.push('\n') + lines[i]
                            } else {
                                p.text + lines[i]
                            };
                            if byte_len(text) > MAX_SNIPPET_BYTES {
                                Err("server snippet is too large"@)
                            } else {
                                Ok(
                                    (
                                        i + 1,
                                        ParseState {
                                            pending: Some(
                                                PendingView {
                                                    line: p.line,
                                                    text: text,
                                                    has_source_lines: true,
                                                },
                                            ),
                                            ..st
                                        },
                                    ),
                                )
                            }
                        },
                        None => if lines[i].len() != 0 {
                            Err("unexpected server text before snippets: "@ + sanitized(lines[i]))
                        } else if current.snippets.len() > MAX_SNIPPETS_PER_RESULT {
                            Err("server returned too many snippets"@)
                        } else {
                            Ok((i + 1, st))
                        },
                    },
                }
            },
        },
    }
}

/// The outcome of parsing `lines` from line `i` on in state `st`: after the last line
/// the pending snippet and the current result are closed, and at least one result
/// must have been found.
pub open spec fn run(lines: Seq<Seq<char>>, i: int, st: ParseState) -> Result<
    Seq<ResultView>,
    Seq<char>,
>
    decreases lines.len() - i,
{
    if i < 0 || i >= lines.len() {
        match finish_pending(st.current, st.pending) {
            Err(e) => Err(e),
            Ok(closed) => {
                let all = close_current(st.results, closed);
                if all.len() == 0 {
                    Err("server search text contained no results"@)
                } else {
                    Ok(all)
                }
            },
        }
    } else {
        match step(lines, i, st) {
            Err(e) => Err(e),
            Ok((next, after)) => if i < next <= lines.len() {
                run(lines, next, after)
            } else {
                Err(seq![])
            },
        }
    }
}

/// Whether the text says that nothing was found: blank, or the service's no-match message.
pub open spec fn is_no_result_text(text: Seq<char>) -> bool {
    trim(text) == "No results found for your query."@ || trim(text).len() == 0
}

/// The results that one text item of a search describes, or why it is refused.
pub open spec fn parse_text(text: Seq<char>) -> Result<Seq<ResultView>, Seq<char>> {
    if is_no_result_text(text) {
        Ok(seq![])
    } else {
        run(lines(text), 0, initial_state())
    }
}

/// The results of all text items of a search in order, or the first refusal: an item
/// over twice `MAX_SNIPPET_BYTES` bytes, an item that does not parse, or more than
/// `MAX_RESULTS` results in all.
pub open spec fn parse_texts(texts: Seq<Seq<char>>) -> Result<Seq<ResultView>, Seq<char>>
    decreases texts.len(),
{
    if texts.len() == 0 {
        Ok(seq![])
    } else {
        match parse_texts(texts.drop_last()) {
            Err(e) => Err(e),
            Ok(found) => {
                let text = texts.last();
                if byte_len(text) > MAX_SNIPPET_BYTES * 2 {
                    Err("server text item is too large"@)
                } else {
                    match parse_text(text) {
                        Err(e) => Err(e),
                        Ok(more) => if found.len() + more.len() > MAX_RESULTS {
                            Err("server returned too many results"@)
                        } else {
                            Ok(found + more)
                        },
                    }
                }
            },
        }
    }
}

/// The value of the parser's state.
pub open spec fn state_view(
    results: Seq<SearchResult>,
    current: Option<SearchResult>,
    pending: Option<PendingSnippet>,
) -> ParseState {
    ParseState {
        results: result_views(results),
        current: opt_result_view(current),
        pending: opt_pending_view(pending),
    }
}

/// The string of the characters `v`, sanitized.
fn sanitized_string(v: &Vec<char>) -> (s: String)
    ensures
        s@ == sanitized(v@),
{
    let mut out: Vec<char> = Vec::new();
    push_sanitized(&mut out, v);
    string_from_chars(&out)
}

/// Parses one text item of a successful tool call into typed, safe results.
pub fn parse_one(text: &str) -> (r: Result<Vec<SearchResult>, String>)
    ensures
        outcome_view(r) == parse_text(text@),
{
    let chars = chars_of(text);
    let trimmed = trim_chars(&chars);
    if same_chars(&trimmed, &chars_of("No results found for your query.")) || trimmed.len() == 0 {
        let none: Vec<SearchResult> = Vec::new();
        assert(result_views(none@) =~= seq![]);
        return Ok(none);
    }
    let lines = lines_of(&chars);
    let ghost l = views(lines@);
    let mut results: Vec<SearchResult> = Vec::new();
    let mut current: Option<SearchResult> = None;
    let mut pending: Option<PendingSnippet> = None;
    let mut index: usize = 0;
    proof {
        assert(result_views(results@) =~= seq![]);
    }
    while index < lines.len()
        invariant
            index <= lines.len(),
            l == views(lines@),
            l.len() == lines@.len(),
            parse_text(text@) == run(l, 0, initial_state()),
            run(l, index as int, state_view(results@, current, pending)) == run(l, 0, initial_state()),
        decreases lines.len() - index,
    {
        let ghost st = state_view(results@, current, pending);
        assert(l[index as int] == lines@[index as int]@);
        match result_header(&lines, index) {
            Some((repository, path, url, license)) => {
                match finish_snippet(&mut current, &mut pending) {
                    Err(e) => {
                        assert(step(l, index as int, st) == Err::<(int, ParseState), Seq<char>>(e@));
                        return Err(e);
                    },
                    Ok(()) => {},
                }
                let ghost before = results@;
                match current.take() {
                    Some(done) => {
                        results.push(done);
                        assert(result_views(results@) =~= result_views(before).push(done@));
                    },
                    None => {},
                }
                current = Some(
                    SearchResult {
                        repository: sanitized_string(&repository),
                        path: sanitized_string(&path),
                        url: sanitized_string(&url),
                        license: sanitized_string(&license),
                        snippets: Vec::new(),
                    },
                );
                assert(snippet_views(current.unwrap().snippets@) =~= seq![]);
                index = index + 6;
                continue ;
            },
            None => {},
        }
        if current.is_none() {
            assert(step(l, index as int, st) == Err::<(int, ParseState), Seq<char>>(
                "server search text does not begin with a complete result header"@));
            return Err("server search text does not begin with a complete result header".to_owned());
        }
        if same_chars(&lines[index], &chars_of("Snippets:")) {
            index = index + 1;
            continue ;
        }
        match snippet_header_chars(&lines[index]) {
            Some(line) => {
                match finish_snippet(&mut current, &mut pending) {
                    Err(e) => return Err(e),
                    Ok(()) => {},
                }
                pending = Some(
                    PendingSnippet {
                        snippet: Snippet { line: line, text: String::new() },
                        has_source_lines: false,
                    },
                );
            },
            None => {
                if pending.is_some() {
                    let mut p = pending.take().unwrap();
                    let ghost raw = p.snippet.text@;
                    let ghost had = p.has_source_lines;
                    if p.has_source_lines {
                        proof {
                            reveal_strlit("\n");
                        }
                        p.snippet.text.append("\n");
                        assert(p.snippet.text@ =~= raw.push('\n'));
                    }
                    let source = string_from_chars(&lines[index]);
                    p.snippet.text.append(source.as_str());
                    assert(p.snippet.text@ =~= (if had { raw.push('\n') } else { raw }) + l[index as int]);
                    p.has_source_lines = true;
                    if utf8_len(p.snippet.text.as_str()) > MAX_SNIPPET_BYTES {
                        return Err("server snippet is too large".to_owned());
                    }
                    pending = Some(p);
                } else if lines[index].len() != 0 {
                    let mut message = chars_of("unexpected server text before snippets: ");
                    push_sanitized(&mut message, &lines[index]);
                    return Err(string_from_chars(&message));
                } else if current.as_ref().unwrap().snippets.len() > MAX_SNIPPETS_PER_RESULT {
                    return Err("server returned too many snippets".to_owned());
                }
            },
        }
        index = index + 1;
    }
    match finish_snippet(&mut current, &mut pending) {
        Err(e) => return Err(e),
        Ok(()) => {},
    }
    let ghost before = results@;
    match current {
        Some(done) => {
            results.push(done);
            assert(result_views(results@) =~= result_views(before).push(done@));
        },
        None => {},
    }
    if results.len() == 0 {
        return Err("server search text contained no results".to_owned());
    }
    Ok(results)
}

/// Once a prefix of the items is refused, the whole list is refused with the same error.
proof fn lemma_parse_texts_failure_stays(texts: Seq<Seq<char>>, k: int)
    requires
        0 <= k <= texts.len(),
        parse_texts(texts.take(k)) is Err,
    ensures
        parse_texts(texts) == parse_texts(texts.take(k)),
    decreases texts.len() - k,
{
    if k < texts.len() {
        assert(texts.drop_last().take(k) == texts.take(k));
        lemma_parse_texts_failure_stays(texts.drop_last(), k);
        assert(texts.drop_last().take(k) == texts.take(k));
    } else {
        assert(texts.take(k) == texts);
    }
}

/// Parses all text content items from a successful tool call into typed, safe results.
pub fn parse_search_texts(texts: &[String]) -> (r: Result<Vec<SearchResult>, String>)
    ensures
        outcome_view(r) == parse_texts(texts@.map_values(|t: String| t@)),
{
    let ghost all = texts@.map_values(|t: String| t@);
    let mut results: Vec<SearchResult> = Vec::new();
    let mut i: usize = 0;
    assert(all.take(0) =~= seq![]);
    assert(result_views(results@) =~= seq![]);
    while i < texts.len()
        invariant
            i <= texts.len(),
            all == texts@.map_values(|t: String| t@),
            parse_texts(all.take(i as int)) == Ok::<Seq<ResultView>, Seq<char>>(result_views(results@)),
            results.len() <= MAX_RESULTS,
        decreases texts.len() - i,
    {
        let text = &texts[i];
        assert(all.take(i + 1).drop_last() == all.take(i as int));
        assert(all.take(i + 1).last() == text@);
        if utf8_len(text.as_str()) > MAX_SNIPPET_BYTES * 2 {
            proof {
                lemma_parse_texts_failure_stays(all, i + 1);
            }
            return Err("server text item is too large".to_owned());
        }
        let mut parsed = match parse_one(text.as_str()) {
            Ok(p) => p,
            Err(e) => {
                proof {
                    lemma_parse_texts_failure_stays(all, i + 1);
                }
                return Err(e);
            },
        };
        if parsed.len() > MAX_RESULTS - results.len() {
            proof {
                lemma_parse_texts_failure_stays(all, i + 1);
            }
            return Err("server returned too many results".to_owned());
        }
        let ghost before = results@;
        let ghost more = parsed@;
        results.append(&mut parsed);
        assert(result_views(results@) =~= result_views(before) + result_views(more));
        i = i + 1;
    }
    assert(all.take(texts.len() as int) == all);
    Ok(results)
}

/// Whether a snippet is as the parser delivers it: a positive source line, and text
/// whose only unescaped control is the `\n` between lines.
pub open spec fn snippet_well_formed(s: SnippetView) -> bool {
    s.line > 0 && forall|i: int|
        0 <= i < s.text.len() ==> #[trigger] s.text[i] == '\n' || !needs_escape(s.text[i])
}

/// Whether a result is as the parser delivers it: non-empty, terminal-safe metadata,
/// at most `MAX_SNIPPETS_PER_RESULT` snippets, each well formed.
pub open spec fn result_well_formed(r: ResultView) -> bool {
    &&& r.repository.len() > 0 && terminal_safe(r.repository)
    &&& r.path.len() > 0 && terminal_safe(r.path)
    &&& r.url.len() > 0 && terminal_safe(r.url)
    &&& r.license.len() > 0 && terminal_safe(r.license)
    &&& r.snippets.len() <= MAX_SNIPPETS_PER_RESULT
    &&& forall|j: int| 0 <= j < r.snippets.len() ==> snippet_well_formed(#[trigger] r.snippets[j])
}

/// Whether every result of `rs` is well formed.
pub open spec fn all_well_formed(rs: Seq<ResultView>) -> bool {
    forall|i: int| 0 <= i < rs.len() ==> result_well_formed(#[trigger] rs[i])
}

/// What the parser keeps between lines: closed and current results well formed, and a
/// pending snippet only inside a result and with a positive line.
pub open spec fn state_well_formed(st: ParseState) -> bool {
    &&& all_well_formed(st.results)
    &&& st.current matches Some(c) ==> result_well_formed(c)
    &&& st.pending matches Some(p) ==> p.line > 0 && st.current is Some
}

proof fn lemma_escape_lines_safe(s: Seq<char>)
    ensures
        forall|i: int|
            0 <= i < escape_lines(s).len() ==> #[trigger] escape_lines(s)[i] == '\n'
                || !needs_escape(escape_lines(s)[i]),
    decreases s.len(),
{
    if s.len() > 0 {
        lemma_escape_lines_safe(s.drop_last());
        let a = escape_lines(s.drop_last());
        if s.last() != '\n' {
            let b = sanitize_char(s.last());
            lemma_sanitize_char_safe(s.last());
            assert forall|i: int| 0 <= i < (a + b).len() implies #[trigger] (a + b)[i] == '\n'
                || !needs_escape((a + b)[i]) by {
                if i < a.len() {
                    assert((a + b)[i] == a[i]);
                } else {
                    assert((a + b)[i] == b[i - a.len()]);
                }
            }
        } else {
            assert forall|i: int| 0 <= i < a.push('\n').len() implies #[trigger] a.push('\n')[i]
                == '\n' || !needs_escape(a.push('\n')[i]) by {
                if i < a.len() {
                    assert(a.push('\n')[i] == a[i]);
                }
            }
        }
    }
}

proof fn lemma_sanitized_field(s: Seq<char>)
    requires
        s.len() > 0,
    ensures
        sanitized(s).len() > 0,
        terminal_safe(sanitized(s)),
{
    lemma_sanitized_len(s);
    lemma_sanitized_is_terminal_safe(s);
}

proof fn lemma_finish_pending_well_formed(st: ParseState)
    requires
        state_well_formed(st),
    ensures
        finish_pending(st.current, st.pending) matches Ok(c) ==> (c matches Some(r)
            ==> result_well_formed(r)) && (st.current is Some ==> c is Some),
{
    if let Some(p) = st.pending {
        if let Some(r) = st.current {
            if r.snippets.len() != MAX_SNIPPETS_PER_RESULT {
                lemma_escape_lines_safe(p.text);
                let s2 = r.snippets.push(SnippetView { line: p.line, text: escape_lines(p.text) });
                assert forall|j: int| 0 <= j < s2.len() implies snippet_well_formed(
                    #[trigger] s2[j],
                ) by {
                    if j < r.snippets.len() {
                        assert(s2[j] == r.snippets[j]);
                    }
                }
            }
        }
    }
}

proof fn lemma_close_current_well_formed(results: Seq<ResultView>, c: Option<ResultView>)
    requires
        all_well_formed(results),
        c matches Some(r) ==> result_well_formed(r),
    ensures
        all_well_formed(close_current(results, c)),
{
    if let Some(r) = c {
        assert forall|i: int| 0 <= i < results.push(r).len() implies result_well_formed(
            #[trigger] results.push(r)[i],
        ) by {
            if i < results.len() {
                assert(results.push(r)[i] == results[i]);
            }
        }
    }
}

proof fn lemma_step_well_formed(lines: Seq<Seq<char>>, i: int, st: ParseState)
    requires
        0 <= i < lines.len(),
        state_well_formed(st),
    ensures
        step(lines, i, st) matches Ok((next, after)) ==> state_well_formed(after) && i < next
            <= lines.len(),
{
    lemma_finish_pending_well_formed(st);
    match header_fields(lines, i) {
        Some((repository, path, url, license)) => {
            if let Ok(closed) = finish_pending(st.current, st.pending) {
                lemma_close_current_well_formed(st.results, closed);
                lemma_sanitized_field(repository);
                lemma_sanitized_field(path);
                lemma_sanitized_field(url);
                lemma_sanitized_field(license);
            }
        },
        None => {},
    }
}

proof fn lemma_run_well_formed(lines: Seq<Seq<char>>, i: int, st: ParseState)
    requires
        0 <= i,
        state_well_formed(st),
    ensures
        run(lines, i, st) matches Ok(rs) ==> rs.len() > 0 && all_well_formed(rs),
    decreases lines.len() - i,
{
    if i >= lines.len() {
        lemma_finish_pending_well_formed(st);
        if let Ok(closed) = finish_pending(st.current, st.pending) {
            lemma_close_current_well_formed(st.results, closed);
        }
    } else {
        lemma_step_well_formed(lines, i, st);
        if let Ok((next, after)) = step(lines, i, st) {
            lemma_run_well_formed(lines, next, after);
        }
    }
}

/// Every result that a text item yields is well formed: non-empty terminal-safe
/// metadata, at most `MAX_SNIPPETS_PER_RESULT` snippets, positive snippet lines, and
/// snippet text whose only unescaped control is the line-separating `\n`.
pub proof fn lemma_parse_text_well_formed(text: Seq<char>)
    ensures
        parse_text(text) matches Ok(rs) ==> all_well_formed(rs),
{
    if !is_no_result_text(text) {
        lemma_run_well_formed(lines(text), 0, initial_state());
    }
}

/// A text item yields no results exactly when it is blank or the service's no-match
/// message; any other text yields at least one result or an error.
pub proof fn lemma_parse_text_empty_iff_no_match(text: Seq<char>)
    ensures
        parse_text(text) == Ok::<Seq<ResultView>, Seq<char>>(seq![]) <==> is_no_result_text(text),
{
    if !is_no_result_text(text) {
        lemma_run_well_formed(lines(text), 0, initial_state());
    }
}

/// A search yields at most `MAX_RESULTS` results, each of them well formed.
pub proof fn lemma_parse_texts_bounded(texts: Seq<Seq<char>>)
    ensures
        parse_texts(texts) matches Ok(rs) ==> rs.len() <= MAX_RESULTS && all_well_formed(rs),
    decreases texts.len(),
{
    if texts.len() > 0 {
        lemma_parse_texts_bounded(texts.drop_last());
        lemma_parse_text_well_formed(texts.last());
        if let Ok(found) = parse_texts(texts.drop_last()) {
            if let Ok(more) = parse_text(texts.last()) {
                assert forall|i: int| 0 <= i < (found + more).len() implies result_well_formed(
                    #[trigger] (found + more)[i],
                ) by {
                    if i < found.len() {
                        assert((found + more)[i] == found[i]);
                    } else {
                        assert((found + more)[i] == more[i - found.len()]);
                    }
                }
            }
        }
    }
}

proof fn lemma_escape_lines_concat(a: Seq<char>, b: Seq<char>)
    ensures
        escape_lines(a + b) == escape_lines(a) + escape_lines(b),
    decreases b.len(),
{
    if b.len() == 0 {
        assert(a + b == a);
    } else {
        lemma_escape_lines_concat(a, b.drop_last());
        assert((a + b).drop_last() == a + b.drop_last());
        assert((a + b).last() == b.last());
    }
}

proof fn lemma_pieces_escape(s: Seq<char>, cur: Seq<char>)
    ensures
        join(pieces_from(s, cur).map_values(|l: Seq<char>| sanitized(l)), seq!['\n'])
            == sanitized(cur) + escape_lines(s),
    decreases s.len(),
{
    let f = |l: Seq<char>| sanitized(l);
    if s.len() == 0 {
        assert(pieces_from(s, cur).map_values(f) =~= seq![sanitized(cur)]);
        assert(escape_lines(s) =~= seq![]);
        assert(sanitized(cur) + escape_lines(s) =~= sanitized(cur));
    } else {
        let c = s[0];
        let rest = s.drop_first();
        assert(s == seq![c] + rest);
        lemma_escape_lines_concat(seq![c], rest);
        assert(seq![c].drop_last() =~= Seq::<char>::empty());
        assert(seq![c].last() == c);
        assert(escape_lines(Seq::<char>::empty()) =~= seq![]);
        if c == '\n' {
            lemma_pieces_escape(rest, seq![]);
            let m = pieces_from(rest, seq![]).map_values(f);
            assert(pieces_from(s, cur).map_values(f) =~= seq![sanitized(cur)] + m);
            assert(pieces_from(rest, seq![]).len() > 0) by {
                lemma_pieces_nonempty(rest, seq![]);
            }
            let all = seq![sanitized(cur)] + m;
            assert(all.drop_first() =~= m);
            assert(sanitized(Seq::<char>::empty()) =~= seq![]);
            assert(escape_lines(seq![c]) =~= seq!['\n']);
            assert(join(all, seq!['\n']) == all[0] + seq!['\n'] + join(all.drop_first(), seq!['\n']));
            assert(sanitized(cur) + seq!['\n'] + (Seq::<char>::empty() + escape_lines(rest))
                =~= sanitized(cur) + (seq!['\n'] + escape_lines(rest)));
        } else {
            lemma_pieces_escape(rest, cur.push(c));
            assert(cur.push(c).drop_last() == cur);
            assert(escape_lines(seq![c]) =~= sanitize_char(c));
            assert(sanitized(cur.push(c)) == sanitized(cur) + sanitize_char(c));
            assert(sanitized(cur) + sanitize_char(c) + escape_lines(rest) =~= sanitized(cur) + (
            sanitize_char(c) + escape_lines(rest)));
        }
    }
}

proof fn lemma_pieces_nonempty(s: Seq<char>, cur: Seq<char>)
    ensures
        pieces_from(s, cur).len() > 0,
    decreases s.len(),
{
    if s.len() > 0 {
        if s[0] == '\n' {
            lemma_pieces_nonempty(s.drop_first(), seq![]);
        } else {
            lemma_pieces_nonempty(s.drop_first(), cur.push(s[0]));
        }
    }
}

/// A closed snippet's text is its raw text split at `\n`, each line sanitized on its
/// own, and joined again with `\n`.
pub proof fn lemma_escape_lines_is_per_line(s: Seq<char>)
    ensures
        escape_lines(s) == join(
            split_newlines(s).map_values(|l: Seq<char>| sanitized(l)),
            seq!['\n'],
        ),
{
    lemma_pieces_escape(s, seq![]);
    assert(sanitized(Seq::<char>::empty()) =~= seq![]);
    assert(Seq::<char>::empty() + escape_lines(s) =~= escape_lines(s));
}

/// Closing a pending snippet `p` of a result `r` with fewer than
/// `MAX_SNIPPETS_PER_RESULT` snippets appends it with its raw text split at `\n`, each
/// line sanitized on its own, and joined again; with nothing pending, the result stays
/// as it is.
pub proof fn lemma_finish_pending_appends(r: ResultView, p: PendingView)
    requires
        r.snippets.len() < MAX_SNIPPETS_PER_RESULT,
    ensures
        finish_pending(Some(r), None) == Ok::<Option<ResultView>, Seq<char>>(Some(r)),
        finish_pending(Some(r), Some(p)) == Ok::<Option<ResultView>, Seq<char>>(
            Some(
                ResultView {
                    snippets: r.snippets.push(
                        SnippetView {
                            line: p.line,
                            text: join(
                                split_newlines(p.text).map_values(|l: Seq<char>| sanitized(l)),
                                seq!['\n'],
                            ),
                        },
                    ),
                    ..r
                },
            ),
        ),
{
    lemma_escape_lines_is_per_line(p.text);
}

proof fn lemma_decimal_parses(n: nat)
    requires
        n <= u64::MAX,
    ensures
        decimal(n).len() > 0,
        all_digits(decimal(n)),
        digits_value(decimal(n)) == n,
        parse_u64(decimal(n)) == Some(n as u64),
    decreases n,
{
    let d = decimal(n);
    if n < 10 {
        assert(d.drop_last() =~= Seq::<char>::empty());
        assert(d.last() == digit_char(n));
        assert((digit_char(n) as u32) == ('0' as u32) + n);
        assert(digits_value(d) == digits_value(Seq::<char>::empty()) * 10 + n);
    } else {
        lemma_decimal_parses(n / 10);
        let h = decimal(n / 10);
        assert(d == h + seq![digit_char(n % 10)]);
        assert(d.drop_last() =~= h);
        assert(d.last() == digit_char(n % 10));
        assert((digit_char(n % 10) as u32) == ('0' as u32) + n % 10);
        assert((n / 10) * 10 + n % 10 == n) by (nonlinear_arith);
        assert(digits_value(d) == digits_value(h) * 10 + n % 10);
        assert forall|i: int| 0 <= i < d.len() implies is_digit(#[trigger] d[i]) by {
            if i < h.len() {
                assert(d[i] == h[i]);
            }
        }
    }
    assert(d[0] != '+') by {
        assert(is_digit(d[0]));
    }
    assert(unsigned_digits(d) == d);
}

proof fn lemma_rfind_skips(s: Seq<char>, p: Seq<char>, k0: int, k: int)
    requires
        -1 <= k0 <= k,
        forall|j: int| k0 < j <= k ==> !occurs_at(s, p, j),
    ensures
        rfind_from(s, p, k) == rfind_from(s, p, k0),
    decreases k - k0,
{
    if k > k0 {
        lemma_rfind_skips(s, p, k0, k - 1);
    }
}

proof fn lemma_rsplit_at_last_marker(o: Seq<char>, n: Seq<char>)
    requires
        forall|i: int| 0 <= i < n.len() ==> #[trigger] n[i] != ' ' && n[i] != '(',
    ensures
        rsplit_once(o + " (Line "@ + n + ")"@, " (Line "@) == Some((o, n + ")"@)),
{
    reveal_strlit(" (Line ");
    reveal_strlit(")");
    let q = " (Line "@;
    let after = o + q + n + ")"@;
    let k0 = o.len() as int;
    assert(q.len() == 7);
    assert(after.len() == k0 + 7 + n.len() + 1);
    assert forall|j: int| 0 <= j < 7 implies after[k0 + j] == q[j] by {}
    assert forall|j: int| 0 <= j < n.len() implies after[k0 + 7 + j] == n[j] by {}
    assert(after[k0 + 7 + n.len()] == ')');
    assert(after.subrange(k0, k0 + 7) =~= q);
    assert forall|j: int| k0 < j <= after.len() - 7 implies !occurs_at(after, q, j) by {
        if occurs_at(after, q, j) {
            assert(after.subrange(j, j + 7)[0] == after[j]);
            assert(after.subrange(j, j + 7)[1] == after[j + 1]);
            if j < k0 + 6 {
                assert(after[k0 + (j - k0)] == q[j - k0]);
            } else if j == k0 + 6 {
                if n.len() > 0 {
                    assert(after[k0 + 7 + 0] == n[0]);
                }
            } else {
                assert(after[k0 + 7 + (j - k0 - 7)] == n[j - k0 - 7]);
            }
        }
    }
    lemma_rfind_skips(after, q, k0, after.len() - 7);
    assert(after.take(k0) =~= o);
    assert(after.skip(k0 + 7) =~= n + ")"@);
}

proof fn lemma_rfind_occurs(s: Seq<char>, p: Seq<char>, k: int)
    ensures
        rfind_from(s, p, k) matches Some(j) ==> occurs_at(s, p, j),
    decreases k + 1,
{
    if k >= 0 && !occurs_at(s, p, k) {
        lemma_rfind_occurs(s, p, k - 1);
    }
}

proof fn lemma_parsed_number_chars(m: Seq<char>)
    requires
        parse_u64(m) is Some,
    ensures
        forall|i: int| 0 <= i < m.len() ==> #[trigger] m[i] != ' ' && m[i] != '(',
{
    let d = unsigned_digits(m);
    assert forall|i: int| 0 <= i < m.len() implies #[trigger] m[i] != ' ' && m[i] != '(' by {
        if m.len() > 0 && m[0] == '+' {
            if i > 0 {
                assert(m[i] == d[i - 1]);
                assert(is_digit(d[i - 1]));
            }
        } else {
            assert(m[i] == d[i]);
            assert(is_digit(d[i]));
        }
    }
}

/// A snippet header line whose ordinal is written `n` and whose line is written `m`.
pub open spec fn snippet_header_of(n: Seq<char>, m: Seq<char>) -> Seq<char> {
    "--- Snippet "@ + n + " (Line "@ + m + ") ---"@
}

/// The header of snippet `ordinal` starting at source line `line`, as the service writes it.
pub open spec fn snippet_header_text(ordinal: nat, line: nat) -> Seq<char> {
    snippet_header_of(decimal(ordinal), decimal(line))
}

proof fn lemma_header_pieces(n: Seq<char>, m: Seq<char>)
    ensures
        strip_prefix(snippet_header_of(n, m), "--- Snippet "@) == Some(
            n + " (Line "@ + m + ")"@ + " ---"@,
        ),
        strip_suffix(n + " (Line "@ + m + ")"@ + " ---"@, " ---"@) == Some(n + " (Line "@ + m + ")"@),
        strip_suffix(m + ")"@, ")"@) == Some(m),
{
    reveal_strlit("--- Snippet ");
    reveal_strlit(") ---");
    reveal_strlit(" ---");
    reveal_strlit(")");
    let a = "--- Snippet "@;
    let text = snippet_header_of(n, m);
    let after = n + " (Line "@ + m + ")"@;
    let full = after + " ---"@;
    assert(text =~= a + full);
    assert(text.take(a.len() as int) =~= a);
    assert(text.skip(a.len() as int) =~= full);
    assert(full.skip(full.len() - 4) =~= " ---"@);
    assert(full.take(full.len() - 4) =~= after);
    let rest = m + ")"@;
    assert(rest.skip(rest.len() - 1) =~= ")"@);
    assert(rest.take(rest.len() - 1) =~= m);
}

/// A line is accepted as a snippet header with line `l` exactly when it reads
/// `--- Snippet <n> (Line <m>) ---`, where `n` and `m` parse as positive `u64`s
/// (`str::parse`) and `m` gives `l`.
pub proof fn lemma_snippet_line_exact(s: Seq<char>, l: u64)
    ensures
        snippet_line(s) == Some(l) <==> exists|n: Seq<char>, m: Seq<char>|
            #[trigger] snippet_header_of(n, m) == s && (parse_u64(n) matches Some(k) && k > 0)
                && parse_u64(m) == Some(l) && l > 0,
{
    reveal_strlit("--- Snippet ");
    reveal_strlit(" ---");
    reveal_strlit(" (Line ");
    reveal_strlit(")");
    if snippet_line(s) == Some(l) {
        let after = strip_prefix(s, "--- Snippet "@)->0;
        let middle = strip_suffix(after, " ---"@)->0;
        let q = " (Line "@;
        lemma_rfind_occurs(middle, q, middle.len() - q.len());
        let (n, rest) = rsplit_once(middle, q)->0;
        let k = rfind_from(middle, q, middle.len() - q.len())->0;
        assert(middle =~= middle.take(k) + middle.subrange(k, k + q.len()) + middle.skip(
            k + q.len(),
        ));
        assert(middle == n + q + rest);
        let m = strip_suffix(rest, ")"@)->0;
        assert(rest =~= m + ")"@);
        reveal_strlit(") ---");
        let pre = "--- Snippet "@;
        assert(has_prefix(s, pre));
        assert(s =~= s.take(pre.len() as int) + s.skip(pre.len() as int));
        assert(s == pre + after);
        assert(has_suffix(after, " ---"@));
        assert(after =~= after.take(after.len() - 4) + after.skip(after.len() - 4));
        assert(after == middle + " ---"@);
        assert(")"@ + " ---"@ =~= ") ---"@);
        assert(s =~= snippet_header_of(n, m));
    }
    if exists|n: Seq<char>, m: Seq<char>|
        #[trigger] snippet_header_of(n, m) == s && (parse_u64(n) matches Some(k) && k > 0)
            && parse_u64(m) == Some(l) && l > 0 {
        let (n, m) = choose|n: Seq<char>, m: Seq<char>|
            #[trigger] snippet_header_of(n, m) == s && (parse_u64(n) matches Some(k) && k > 0)
                && parse_u64(m) == Some(l) && l > 0;
        lemma_header_pieces(n, m);
        lemma_parsed_number_chars(m);
        lemma_rsplit_at_last_marker(n, m);
    }
}

/// Every header the service writes for a positive ordinal and a positive line is
/// accepted, with its line.
pub proof fn lemma_snippet_header_accepted(ordinal: u64, line: u64)
    requires
        ordinal > 0,
        line > 0,
    ensures
        snippet_line(snippet_header_text(ordinal as nat, line as nat)) == Some(line),
{
    lemma_decimal_parses(ordinal as nat);
    lemma_decimal_parses(line as nat);
    lemma_snippet_line_exact(snippet_header_text(ordinal as nat, line as nat), line);
    assert(snippet_header_of(decimal(ordinal as nat), decimal(line as nat)) == snippet_header_text(
        ordinal as nat,
        line as nat,
    ));
}

/// A snippet is refused when no result is open, or when the open result already holds
/// `MAX_SNIPPETS_PER_RESULT` snippets.
pub proof fn lemma_finish_pending_refuses(r: ResultView, p: PendingView)
    ensures
        finish_pending(None, Some(p)) == Err::<Option<ResultView>, Seq<char>>(
            "snippet without result"@,
        ),
        r.snippets.len() == MAX_SNIPPETS_PER_RESULT ==> finish_pending(Some(r), Some(p)) == Err::<
            Option<ResultView>,
            Seq<char>,
        >("server returned too many snippets"@),
{
}

proof fn lemma_strip_prefix_exact(x: Seq<char>, p: Seq<char>, v: Seq<char>)
    ensures
        strip_prefix(x, p) == Some(v) <==> x == p + v,
{
    if x == p + v {
        assert(x.take(p.len() as int) =~= p);
        assert(x.skip(p.len() as int) =~= v);
    }
    if strip_prefix(x, p) == Some(v) {
        assert(x =~= x.take(p.len() as int) + x.skip(p.len() as int));
    }
}

/// A result starts at line `at` with metadata `a`, `b`, `c`, `d` exactly when the six
/// lines from `at` read `Repository: a`, `Path: b`, `URL: c`, `License: d` with
/// non-empty values, then an empty line and `Snippets:`.
pub proof fn lemma_header_fields_exact(
    lines: Seq<Seq<char>>,
    at: int,
    a: Seq<char>,
    b: Seq<char>,
    c: Seq<char>,
    d: Seq<char>,
)
    ensures
        header_fields(lines, at) == Some((a, b, c, d)) <==> {
            &&& 0 <= at && at + 6 <= lines.len()
            &&& lines[at] == "Repository: "@ + a && a.len() > 0
            &&& lines[at + 1] == "Path: "@ + b && b.len() > 0
            &&& lines[at + 2] == "URL: "@ + c && c.len() > 0
            &&& lines[at + 3] == "License: "@ + d && d.len() > 0
            &&& lines[at + 4].len() == 0
            &&& lines[at + 5] == "Snippets:"@
        },
{
    if 0 <= at && at + 6 <= lines.len() {
        lemma_strip_prefix_exact(lines[at], "Repository: "@, a);
        lemma_strip_prefix_exact(lines[at + 1], "Path: "@, b);
        lemma_strip_prefix_exact(lines[at + 2], "URL: "@, c);
        lemma_strip_prefix_exact(lines[at + 3], "License: "@, d);
    }
}

} // verus!
