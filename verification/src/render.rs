//! Plain, terminal-safe rendering for typed search results.

use vstd::prelude::*;
use crate::{ResultView, SearchResult, SnippetView, Snippet, result_views, snippet_views};
use crate::args::Color;
use crate::sanitize::{lemma_sanitized_is_terminal_safe, needs_escape, push_sanitized, sanitized};
use crate::text::{chars_of, has_prefix, pieces_from, decimal, decimal_chars, digit_char, split_newlines, split_newlines_of, string_from_chars, views};

verus! {

/// Whether ANSI decoration is used: always, never, or (for `Auto`) only on a terminal
/// when `NO_COLOR` is not set.
pub open spec fn color_enabled(policy: Color, stdout_is_terminal: bool, no_color_set: bool) -> bool {
    match policy {
        Color::Always => true,
        Color::Never => false,
        Color::Auto => stdout_is_terminal && !no_color_set,
    }
}

/// Determines whether ANSI decoration is permitted by the requested policy.
pub fn use_color(policy: Color, stdout_is_terminal: bool, no_color_set: bool) -> (b: bool)
    ensures
        b == color_enabled(policy, stdout_is_terminal, no_color_set),
{
    match policy {
        Color::Always => true,
        Color::Never => false,
        Color::Auto => stdout_is_terminal && !no_color_set,
    }
}

/// `std::io::Error`, the failure of a write; its contents are not visible here.
#[verifier::external_type_specification]
#[verifier::external_body]
pub struct ExIoError(std::io::Error);

/// The kinds of output failure that the client tells apart.
#[derive(Debug, Clone, Copy, PartialEq, Eq)]
pub enum OutputFailure {
    /// The reader closed the pipe.
    BrokenPipe,
    /// Any other failure.
    Other,
}

/// Whether `error` is of kind `std::io::ErrorKind::BrokenPipe`, as `io::Error::kind`
/// reports it; the kind is a function of the error alone.
pub uninterp spec fn error_breaks_pipe(error: std::io::Error) -> bool;

/// `std::io::Error::kind`, mapped to whether it is `ErrorKind::BrokenPipe`.
#[verifier::external_body]
fn output_failure(error: &std::io::Error) -> (f: OutputFailure)
    ensures
        f == (if error_breaks_pipe(*error) {
            OutputFailure::BrokenPipe
        } else {
            OutputFailure::Other
        }),
{
    match error.kind() {
        std::io::ErrorKind::BrokenPipe => OutputFailure::BrokenPipe,
        _ => OutputFailure::Other,
    }
}

/// Whether a failure of the kind `failure` means that a downstream consumer
/// deliberately closed its pipe, which the client treats as successful completion.
pub fn is_broken_pipe_failure(failure: OutputFailure) -> (b: bool)
    ensures
        b == (failure == OutputFailure::BrokenPipe),
{
    match failure {
        OutputFailure::BrokenPipe => true,
        OutputFailure::Other => false,
    }
}

/// Whether an output error means a downstream consumer deliberately closed its pipe:
/// exactly when its kind is `ErrorKind::BrokenPipe`.
pub fn is_broken_pipe(error: &std::io::Error) -> (b: bool)
    ensures
        b == error_breaks_pipe(*error),
{
    is_broken_pipe_failure(output_failure(error))
}

/// One metadata line: `name: value`, the name in bold when color is on, the value sanitized.
pub open spec fn label_text(name: Seq<char>, value: Seq<char>, color: bool) -> Seq<char> {
    (if color {
        "\x1b[1m"@ + name + ":\x1b[0m "@
    } else {
        name + ": "@
    }) + sanitized(value) + "\n"@
}

/// The source lines of a snippet, each indented by two spaces, sanitized, and ended by a newline.
pub open spec fn source_lines(lines: Seq<Seq<char>>) -> Seq<char>
    decreases lines.len(),
{
    if lines.len() == 0 {
        seq![]
    } else {
        source_lines(lines.drop_last()) + "  "@ + sanitized(lines.last()) + "\n"@
    }
}

/// A snippet: its `Snippet (line N):` heading (bold cyan when color is on), then every
/// line of its text.
pub open spec fn snippet_text(s: SnippetView, color: bool) -> Seq<char> {
    (if color { "\x1b[1;36m"@ } else { seq![] }) + "Snippet (line "@ + decimal(s.line as nat)
        + "):\n"@ + (if color { "\x1b[0m"@ } else { seq![] }) + source_lines(split_newlines(s.text))
}

/// All snippets of a result, in order.
pub open spec fn snippets_text(snippets: Seq<SnippetView>, color: bool) -> Seq<char>
    decreases snippets.len(),
{
    if snippets.len() == 0 {
        seq![]
    } else {
        snippets_text(snippets.drop_last(), color) + snippet_text(snippets.last(), color)
    }
}

/// One result: a blank line before all but the first, its four metadata lines, then
/// its snippets.
pub open spec fn result_text(r: ResultView, color: bool, first: bool) -> Seq<char> {
    (if first { seq![] } else { "\n"@ }) + label_text("Repository"@, r.repository, color)
        + label_text("Path"@, r.path, color) + label_text("URL"@, r.url, color) + label_text(
        "License"@,
        r.license,
        color,
    ) + snippets_text(r.snippets, color)
}

/// All results, in order.
pub open spec fn results_text(results: Seq<ResultView>, color: bool) -> Seq<char>
    decreases results.len(),
{
    if results.len() == 0 {
        seq![]
    } else {
        results_text(results.drop_last(), color) + result_text(
            results.last(),
            color,
            results.len() == 1,
        )
    }
}

/// The human rendering of `results`: `No results found.` when there are none.
pub open spec fn rendered(results: Seq<ResultView>, color: bool) -> Seq<char> {
    if results.len() == 0 {
        "No results found.\n"@
    } else {
        results_text(results, color)
    }
}

/// Appends the characters of `s` to `out`.
fn push_str(out: &mut Vec<char>, s: &str)
    ensures
        final(out)@ == old(out)@ + s@,
{
    let mut chars = chars_of(s);
    out.append(&mut chars);
}

fn push_label(out: &mut Vec<char>, name: &str, value: &String, color: bool)
    ensures
        final(out)@ == old(out)@ + label_text(name@, value@, color),
{
    let ghost start = out@;
    if color {
        push_str(out, "\x1b[1m");
        push_str(out, name);
        push_str(out, ":\x1b[0m ");
    } else {
        push_str(out, name);
        push_str(out, ": ");
    }
    push_sanitized(out, &chars_of(value.as_str()));
    push_str(out, "\n");
    assert(out@ =~= start + label_text(name@, value@, color));
}

fn push_snippet(out: &mut Vec<char>, snippet: &Snippet, color: bool)
    ensures
        final(out)@ == old(out)@ + snippet_text(snippet@, color),
{
    let ghost start = out@;
    if color {
        push_str(out, "\x1b[1;36m");
    }
    push_str(out, "Snippet (line ");
    let mut digits = decimal_chars(snippet.line);
    out.append(&mut digits);
    push_str(out, "):\n");
    if color {
        push_str(out, "\x1b[0m");
    }
    let ghost head = out@;
    let lines = split_newlines_of(&chars_of(snippet.text.as_str()));
    let ghost ls = views(lines@);
    let mut i: usize = 0;
    while i < lines.len()
        invariant
            i <= lines.len(),
            ls == views(lines@),
            out@ == head + source_lines(ls.take(i as int)),
        decreases lines.len() - i,
    {
        assert(ls.take(i + 1).drop_last() == ls.take(i as int));
        assert(ls.take(i + 1).last() == lines@[i as int]@);
        push_str(out, "  ");
        push_sanitized(out, &lines[i]);
        push_str(out, "\n");
        assert(out@ =~= head + source_lines(ls.take(i + 1)));
        i = i + 1;
    }
    assert(ls.take(lines.len() as int) == ls);
    assert(out@ =~= start + snippet_text(snippet@, color));
}

fn push_result(out: &mut Vec<char>, result: &SearchResult, color: bool, first: bool)
    ensures
        final(out)@ == old(out)@ + result_text(result@, color, first),
{
    let ghost start = out@;
    if !first {
        push_str(out, "\n");
    }
    push_label(out, "Repository", &result.repository, color);
    push_label(out, "Path", &result.path, color);
    push_label(out, "URL", &result.url, color);
    push_label(out, "License", &result.license, color);
    let ghost head = out@;
    let ghost ss = snippet_views(result.snippets@);
    let mut i: usize = 0;
    while i < result.snippets.len()
        invariant
            i <= result.snippets.len(),
            ss == snippet_views(result.snippets@),
            out@ == head + snippets_text(ss.take(i as int), color),
        decreases result.snippets.len() - i,
    {
        assert(ss.take(i + 1).drop_last() == ss.take(i as int));
        assert(ss.take(i + 1).last() == result.snippets@[i as int]@);
        push_snippet(out, &result.snippets[i], color);
        assert(out@ =~= head + snippets_text(ss.take(i + 1), color));
        i = i + 1;
    }
    assert(ss.take(result.snippets.len() as int) == ss);
    assert(out@ =~= start + result_text(result@, color, first));
}

/// Renders results as plain text (with ANSI decoration when `color` is on); the caller
/// writes it out, and may treat a broken pipe as successful completion.
pub fn render_human(results: &[SearchResult], color: bool) -> (text: String)
    ensures
        text@ == rendered(result_views(results@), color),
{
    let ghost rs = result_views(results@);
    let mut out: Vec<char> = Vec::new();
    if results.len() == 0 {
        push_str(&mut out, "No results found.\n");
        assert(out@ =~= rendered(rs, color));
        return string_from_chars(&out);
    }
    let mut i: usize = 0;
    assert(out@ =~= results_text(rs.take(0), color));
    while i < results.len()
        invariant
            i <= results.len(),
            rs == result_views(results@),
            out@ == results_text(rs.take(i as int), color),
        decreases results.len() - i,
    {
        assert(rs.take(i + 1).drop_last() == rs.take(i as int));
        assert(rs.take(i + 1).last() == results@[i as int]@);
        push_result(&mut out, &results[i], color, i == 0);
        i = i + 1;
    }
    assert(rs.take(results.len() as int) == rs);
    string_from_chars(&out)
}

/// Whether `t` begins with one of the rendering's ANSI decorations: bold, reset, or
/// bold cyan.
pub open spec fn starts_decoration(t: Seq<char>) -> bool {
    has_prefix(t, "\x1b[1m"@) || has_prefix(t, "\x1b[0m"@) || has_prefix(t, "\x1b[1;36m"@)
}

/// Whether the only characters of `s` that would need escaping are the newlines that
/// end lines and, when `color` is on, escape characters that each begin one of the
/// rendering's own ANSI decorations.
pub open spec fn rendering_safe(s: Seq<char>, color: bool) -> bool {
    forall|i: int|
        0 <= i < s.len() ==> #[trigger] s[i] == '\n' || (color && s[i] == '\x1b'
            && starts_decoration(s.skip(i))) || !needs_escape(s[i])
}

/// Whether the only character of `s` that would need escaping is the newline.
pub open spec fn plain_text(s: Seq<char>) -> bool {
    rendering_safe(s, false)
}

proof fn lemma_prefix_extends(x: Seq<char>, y: Seq<char>, p: Seq<char>)
    ensures
        has_prefix(x, p) ==> has_prefix(x + y, p),
{
    if has_prefix(x, p) {
        assert((x + y).take(p.len() as int) =~= x.take(p.len() as int));
    }
}

proof fn lemma_safe_concat(a: Seq<char>, b: Seq<char>, color: bool)
    requires
        rendering_safe(a, color),
        rendering_safe(b, color),
    ensures
        rendering_safe(a + b, color),
{
    assert forall|i: int| 0 <= i < (a + b).len() implies #[trigger] (a + b)[i] == '\n' || (color
        && (a + b)[i] == '\x1b' && starts_decoration((a + b).skip(i))) || !needs_escape(
        (a + b)[i],
    ) by {
        if i < a.len() {
            assert((a + b)[i] == a[i]);
            assert((a + b).skip(i) =~= a.skip(i) + b);
            if color && a[i] == '\x1b' && starts_decoration(a.skip(i)) {
                lemma_prefix_extends(a.skip(i), b, "\x1b[1m"@);
                lemma_prefix_extends(a.skip(i), b, "\x1b[0m"@);
                lemma_prefix_extends(a.skip(i), b, "\x1b[1;36m"@);
            }
        } else {
            assert((a + b)[i] == b[i - a.len()]);
            assert((a + b).skip(i) =~= b.skip(i - a.len()));
        }
    }
}

proof fn lemma_sanitized_safe(s: Seq<char>, color: bool)
    ensures
        rendering_safe(sanitized(s), color),
{
    lemma_sanitized_is_terminal_safe(s);
}

proof fn lemma_decimal_safe(n: nat, color: bool)
    ensures
        rendering_safe(decimal(n), color),
    decreases n,
{
    if n >= 10 {
        lemma_decimal_safe(n / 10, color);
        lemma_safe_concat(decimal(n / 10), seq![digit_char(n % 10)], color);
    }
}

proof fn lemma_source_lines_safe(lines: Seq<Seq<char>>, color: bool)
    ensures
        rendering_safe(source_lines(lines), color),
    decreases lines.len(),
{
    reveal_strlit("  ");
    reveal_strlit("\n");
    if lines.len() > 0 {
        lemma_source_lines_safe(lines.drop_last(), color);
        lemma_sanitized_safe(lines.last(), color);
        lemma_safe_concat(source_lines(lines.drop_last()), "  "@, color);
        lemma_safe_concat(source_lines(lines.drop_last()) + "  "@, sanitized(lines.last()), color);
        lemma_safe_concat(
            source_lines(lines.drop_last()) + "  "@ + sanitized(lines.last()),
            "\n"@,
            color,
        );
    }
}

proof fn lemma_decorations_safe()
    ensures
        rendering_safe("\x1b[1m"@, true),
        rendering_safe(":\x1b[0m "@, true),
        rendering_safe("\x1b[1;36m"@, true),
        rendering_safe("\x1b[0m"@, true),
{
    reveal_strlit("\x1b[1m");
    reveal_strlit(":\x1b[0m ");
    reveal_strlit("\x1b[1;36m");
    reveal_strlit("\x1b[0m");
    assert(('[' as u32) == 0x5b && ('1' as u32) == 0x31 && ('m' as u32) == 0x6d && (':' as u32)
        == 0x3a && ('0' as u32) == 0x30 && (' ' as u32) == 0x20 && (';' as u32) == 0x3b && ('3'
        as u32) == 0x33 && ('6' as u32) == 0x36);
    let bold = "\x1b[1m"@;
    let reset = "\x1b[0m"@;
    let cyan = "\x1b[1;36m"@;
    let close = ":\x1b[0m "@;
    assert(bold.skip(0) =~= bold && bold.take(4) =~= bold);
    assert(cyan.skip(0) =~= cyan && cyan.take(7) =~= cyan);
    assert(reset.skip(0) =~= reset && reset.take(4) =~= reset);
    assert(close.skip(1).take(4) =~= reset);
}

proof fn lemma_label_safe(name: Seq<char>, value: Seq<char>, color: bool)
    requires
        rendering_safe(name, color),
    ensures
        rendering_safe(label_text(name, value, color), color),
{
    reveal_strlit(": ");
    reveal_strlit("\n");
    lemma_sanitized_safe(value, color);
    lemma_decorations_safe();
    let head = if color {
        lemma_safe_concat("\x1b[1m"@, name, color);
        lemma_safe_concat("\x1b[1m"@ + name, ":\x1b[0m "@, color);
        "\x1b[1m"@ + name + ":\x1b[0m "@
    } else {
        lemma_safe_concat(name, ": "@, color);
        name + ": "@
    };
    lemma_safe_concat(head, sanitized(value), color);
    lemma_safe_concat(head + sanitized(value), "\n"@, color);
}

proof fn lemma_snippets_safe(snippets: Seq<SnippetView>, color: bool)
    ensures
        rendering_safe(snippets_text(snippets, color), color),
    decreases snippets.len(),
{
    reveal_strlit("Snippet (line ");
    reveal_strlit("):\n");
    if snippets.len() > 0 {
        let s = snippets.last();
        lemma_snippets_safe(snippets.drop_last(), color);
        lemma_decimal_safe(s.line as nat, color);
        lemma_source_lines_safe(split_newlines(s.text), color);
        lemma_decorations_safe();
        let e: Seq<char> = seq![];
        let open = if color { "\x1b[1;36m"@ } else { e };
        let close = if color { "\x1b[0m"@ } else { e };
        assert(rendering_safe(e, color));
        lemma_safe_concat(open, "Snippet (line "@, color);
        lemma_safe_concat(open + "Snippet (line "@, decimal(s.line as nat), color);
        lemma_safe_concat(open + "Snippet (line "@ + decimal(s.line as nat), "):\n"@, color);
        lemma_safe_concat(open + "Snippet (line "@ + decimal(s.line as nat) + "):\n"@, close, color);
        lemma_safe_concat(
            open + "Snippet (line "@ + decimal(s.line as nat) + "):\n"@ + close,
            source_lines(split_newlines(s.text)),
            color,
        );
        lemma_safe_concat(snippets_text(snippets.drop_last(), color), snippet_text(s, color), color);
    }
}

proof fn lemma_results_safe(results: Seq<ResultView>, color: bool)
    ensures
        rendering_safe(results_text(results, color), color),
    decreases results.len(),
{
    reveal_strlit("\n");
    reveal_strlit("Repository");
    reveal_strlit("Path");
    reveal_strlit("URL");
    reveal_strlit("License");
    if results.len() > 0 {
        let r = results.last();
        lemma_results_safe(results.drop_last(), color);
        let e: Seq<char> = seq![];
        let head = if results.len() == 1 { e } else { "\n"@ };
        lemma_label_safe("Repository"@, r.repository, color);
        lemma_label_safe("Path"@, r.path, color);
        lemma_label_safe("URL"@, r.url, color);
        lemma_label_safe("License"@, r.license, color);
        lemma_snippets_safe(r.snippets, color);
        let a = head + label_text("Repository"@, r.repository, color);
        lemma_safe_concat(head, label_text("Repository"@, r.repository, color), color);
        lemma_safe_concat(a, label_text("Path"@, r.path, color), color);
        let b = a + label_text("Path"@, r.path, color);
        lemma_safe_concat(b, label_text("URL"@, r.url, color), color);
        let c = b + label_text("URL"@, r.url, color);
        lemma_safe_concat(c, label_text("License"@, r.license, color), color);
        let d = c + label_text("License"@, r.license, color);
        lemma_safe_concat(d, snippets_text(r.snippets, color), color);
        lemma_safe_concat(
            results_text(results.drop_last(), color),
            result_text(r, color, results.len() == 1),
            color,
        );
    }
}

/// Without color, the human rendering holds no control or bidirectional character
/// other than the newlines that end its lines, whatever the results hold.
pub proof fn lemma_rendered_plain(results: Seq<ResultView>)
    ensures
        plain_text(rendered(results, false)),
{
    lemma_rendered_safe(results, false);
}

/// With or without color, the human rendering holds no control or bidirectional
/// character but the newlines that end its lines and, with color, escape characters
/// that each begin one of its own decorations (`\x1b[1m`, `\x1b[0m`, `\x1b[1;36m`),
/// whatever the results hold.
pub proof fn lemma_rendered_safe(results: Seq<ResultView>, color: bool)
    ensures
        rendering_safe(rendered(results, color), color),
{
    reveal_strlit("No results found.\n");
    lemma_results_safe(results, color);
}

/// The number of newlines in `s`: the number of lines it ends.
pub open spec fn newline_count(s: Seq<char>) -> nat
    decreases s.len(),
{
    if s.len() == 0 {
        0
    } else {
        newline_count(s.drop_last()) + if s.last() == '\n' {
            1nat
        } else {
            0nat
        }
    }
}

proof fn lemma_newline_count_concat(a: Seq<char>, b: Seq<char>)
    ensures
        newline_count(a + b) == newline_count(a) + newline_count(b),
    decreases b.len(),
{
    if b.len() == 0 {
        assert(a + b =~= a);
    } else {
        lemma_newline_count_concat(a, b.drop_last());
        assert((a + b).drop_last() =~= a + b.drop_last());
        assert((a + b).last() == b.last());
    }
}

proof fn lemma_no_newline(s: Seq<char>)
    requires
        forall|i: int| 0 <= i < s.len() ==> #[trigger] s[i] != '\n',
    ensures
        newline_count(s) == 0,
    decreases s.len(),
{
    if s.len() > 0 {
        assert(s.last() == s[s.len() - 1]);
        lemma_no_newline(s.drop_last());
    }
}

proof fn lemma_sanitized_one_line(s: Seq<char>)
    ensures
        newline_count(sanitized(s)) == 0,
{
    lemma_sanitized_is_terminal_safe(s);
    assert(needs_escape('\n'));
    lemma_no_newline(sanitized(s));
}

proof fn lemma_decimal_one_line(n: nat)
    ensures
        newline_count(decimal(n)) == 0,
    decreases n,
{
    let d = digit_char(n % 10);
    assert(d != '\n') by {
        assert((d as u32) >= 0x30);
    }
    assert(seq![d].drop_last() =~= Seq::<char>::empty());
    assert(newline_count(Seq::<char>::empty()) == 0);
    assert(newline_count(seq![d]) == 0);
    if n >= 10 {
        lemma_decimal_one_line(n / 10);
        lemma_newline_count_concat(decimal(n / 10), seq![d]);
    } else {
        assert(n % 10 == n);
    }
}

proof fn lemma_source_lines_count(lines: Seq<Seq<char>>)
    ensures
        newline_count(source_lines(lines)) == lines.len(),
    decreases lines.len(),
{
    reveal_strlit("  ");
    reveal_strlit("\n");
    if lines.len() > 0 {
        lemma_source_lines_count(lines.drop_last());
        lemma_sanitized_one_line(lines.last());
        let a = source_lines(lines.drop_last());
        lemma_newline_count_concat(a, "  "@);
        lemma_newline_count_concat(a + "  "@, sanitized(lines.last()));
        lemma_newline_count_concat(a + "  "@ + sanitized(lines.last()), "\n"@);
        lemma_no_newline("  "@);
        assert("\n"@.drop_last() =~= Seq::<char>::empty());
        assert(newline_count(Seq::<char>::empty()) == 0);
        assert("\n"@.last() == '\n');
        assert(newline_count("\n"@) == 1);
    }
}

proof fn lemma_pieces_count(s: Seq<char>, cur: Seq<char>)
    ensures
        pieces_from(s, cur).len() == newline_count(s) + 1,
    decreases s.len(),
{
    if s.len() > 0 {
        lemma_newline_count_concat(seq![s[0]], s.drop_first());
        assert(seq![s[0]] + s.drop_first() =~= s);
        assert(seq![s[0]].drop_last() =~= Seq::<char>::empty());
        assert(newline_count(Seq::<char>::empty()) == 0);
        assert(newline_count(seq![s[0]]) == if s[0] == '\n' { 1nat } else { 0nat });
        if s[0] == '\n' {
            lemma_pieces_count(s.drop_first(), seq![]);
        } else {
            lemma_pieces_count(s.drop_first(), cur.push(s[0]));
        }
    }
}

proof fn lemma_fixed_one_line()
    ensures
        newline_count("Snippet (line "@) == 0,
        newline_count("):\n"@) == 1,
        newline_count("\x1b[1;36m"@) == 0,
        newline_count("\x1b[0m"@) == 0,
{
    reveal_strlit("Snippet (line ");
    reveal_strlit("):\n");
    reveal_strlit("\x1b[1;36m");
    reveal_strlit("\x1b[0m");
    lemma_no_newline("Snippet (line "@);
    lemma_no_newline("\x1b[1;36m"@);
    lemma_no_newline("\x1b[0m"@);
    reveal_strlit("\n");
    reveal_strlit("):");
    lemma_newline_count_concat("):"@, "\n"@);
    lemma_no_newline("):"@);
    assert("):"@ + "\n"@ =~= "):\n"@);
    assert("\n"@.drop_last() =~= Seq::<char>::empty());
    assert(newline_count(Seq::<char>::empty()) == 0);
    assert(newline_count("\n"@) == 1);
}

/// A rendered snippet is its heading line followed by one line per line of its text:
/// it ends two more lines than its text holds newlines.
pub proof fn lemma_snippet_text_lines(x: SnippetView, color: bool)
    ensures
        newline_count(snippet_text(x, color)) == newline_count(x.text) + 2,
{
    lemma_fixed_one_line();
    lemma_decimal_one_line(x.line as nat);
    lemma_pieces_count(x.text, seq![]);
    lemma_source_lines_count(split_newlines(x.text));
    let e: Seq<char> = seq![];
    assert(newline_count(e) == 0);
    let open = if color { "\x1b[1;36m"@ } else { e };
    let close = if color { "\x1b[0m"@ } else { e };
    let h1 = open + "Snippet (line "@;
    let h2 = h1 + decimal(x.line as nat);
    let h3 = h2 + "):\n"@;
    let h4 = h3 + close;
    lemma_newline_count_concat(open, "Snippet (line "@);
    lemma_newline_count_concat(h1, decimal(x.line as nat));
    lemma_newline_count_concat(h2, "):\n"@);
    lemma_newline_count_concat(h3, close);
    lemma_newline_count_concat(h4, source_lines(split_newlines(x.text)));
}

/// Rendering the snippets of `a` then those of `b` is rendering `a + b`: every snippet
/// appears, once, in order.
pub proof fn lemma_snippets_text_concat(a: Seq<SnippetView>, b: Seq<SnippetView>, color: bool)
    ensures
        snippets_text(a + b, color) == snippets_text(a, color) + snippets_text(b, color),
    decreases b.len(),
{
    if b.len() == 0 {
        assert(a + b =~= a);
        assert(snippets_text(a, color) + Seq::<char>::empty() =~= snippets_text(a, color));
    } else {
        lemma_snippets_text_concat(a, b.drop_last(), color);
        assert((a + b).drop_last() =~= a + b.drop_last());
        assert((a + b).last() == b.last());
        assert(snippets_text(a, color) + snippets_text(b.drop_last(), color) + snippet_text(
            b.last(),
            color,
        ) =~= snippets_text(a, color) + (snippets_text(b.drop_last(), color) + snippet_text(
            b.last(),
            color,
        )));
    }
}

/// The snippets of a result render as the rendering of each snippet, in order; so a
/// result with `n` snippets has `n` headings.
pub proof fn lemma_snippets_text_push(s: Seq<SnippetView>, x: SnippetView, color: bool)
    ensures
        snippets_text(s.push(x), color) == snippets_text(s, color) + snippet_text(x, color),
        newline_count(snippets_text(s.push(x), color)) == newline_count(snippets_text(s, color))
            + newline_count(x.text) + 2,
{
    lemma_snippets_text_concat(s, seq![x], color);
    assert(s + seq![x] =~= s.push(x));
    assert(seq![x].drop_last() =~= Seq::<SnippetView>::empty());
    assert(snippets_text(Seq::<SnippetView>::empty(), color) =~= Seq::<char>::empty());
    assert(seq![x].last() == x);
    assert(snippets_text(seq![x], color) =~= snippet_text(x, color));
    lemma_snippet_text_lines(x, color);
    lemma_newline_count_concat(snippets_text(s, color), snippet_text(x, color));
}

#[verifier::spinoff_prover]
proof fn lemma_results_text_concat(xs: Seq<ResultView>, ys: Seq<ResultView>, color: bool)
    requires
        xs.len() > 0,
        ys.len() > 0,
    ensures
        results_text(xs + ys, color) == results_text(xs, color) + "\n"@ + results_text(ys, color),
    decreases ys.len(),
{
    reveal_strlit("\n");
    let y = ys.last();
    assert((xs + ys).drop_last() =~= xs + ys.drop_last());
    assert((xs + ys).last() == y);
    assert(result_text(y, color, false) =~= "\n"@ + result_text(y, color, true));
    if ys.len() == 1 {
        assert(xs + ys.drop_last() =~= xs);
        assert(ys.drop_last() =~= Seq::<ResultView>::empty());
        assert(results_text(Seq::<ResultView>::empty(), color) =~= Seq::<char>::empty());
        assert(results_text(ys, color) == results_text(ys.drop_last(), color) + result_text(
            y,
            color,
            true,
        ));
        assert(results_text(ys, color) =~= result_text(y, color, true));
        assert(results_text(xs, color) + ("\n"@ + result_text(y, color, true)) =~= results_text(
            xs,
            color,
        ) + "\n"@ + result_text(y, color, true));
    } else {
        lemma_results_text_concat(xs, ys.drop_last(), color);
        assert(results_text(xs, color) + "\n"@ + results_text(ys.drop_last(), color)
            + result_text(y, color, false) =~= results_text(xs, color) + "\n"@ + (results_text(
            ys.drop_last(),
            color,
        ) + result_text(y, color, false)));
    }
}

/// Rendering two non-empty lists of results one after the other, with a blank line
/// between them, is rendering them together: every result appears, once, in order.
pub proof fn lemma_rendered_concat(xs: Seq<ResultView>, ys: Seq<ResultView>, color: bool)
    requires
        xs.len() > 0,
        ys.len() > 0,
    ensures
        rendered(xs + ys, color) == rendered(xs, color) + "\n"@ + rendered(ys, color),
{
    lemma_results_text_concat(xs, ys, color);
}

} // verus!
