use std::io::{self, Write};

use grep_cli::args::Color;
use grep_cli::render::{
    is_broken_pipe, is_broken_pipe_failure, render_human, use_color, OutputFailure,
};
use grep_cli::{SearchResult, Snippet};

#[test]
fn renders_unicode_without_byte_offsets() {
    let result = SearchResult {
        repository: "東京/r".into(),
        path: "café.rs".into(),
        url: "https://x".into(),
        license: "MIT".into(),
        snippets: vec![Snippet {
            line: 1,
            text: "héllo 世界".into(),
        }],
    };
    let output = render_human(&[result], false);
    assert!(output.contains("héllo 世界"));
}

#[test]
fn color_policy_honors_no_color() {
    assert!(!use_color(Color::Auto, true, true));
    assert!(use_color(Color::Always, false, true));
}

struct Broken;

impl Write for Broken {
    fn write(&mut self, _: &[u8]) -> io::Result<usize> {
        Err(io::Error::from(io::ErrorKind::BrokenPipe))
    }
    fn flush(&mut self) -> io::Result<()> {
        Ok(())
    }
}

#[test]
fn identifies_broken_pipe() {
    let result = SearchResult {
        repository: "r".into(),
        path: "p".into(),
        url: "u".into(),
        license: "l".into(),
        snippets: Vec::new(),
    };
    let rendered = render_human(&[result], false);
    let error = Broken.write_all(rendered.as_bytes()).unwrap_err();
    assert!(is_broken_pipe(&error));
    assert!(!is_broken_pipe(&io::Error::from(io::ErrorKind::Other)));
}

#[test]
fn writes_live_no_results_message() {
    let output = render_human(&[], false);
    assert_eq!(output.as_bytes(), b"No results found.\n");
}

#[test]
fn renders_results_exactly() {
    let results = [
        SearchResult {
            repository: "a/r".into(),
            path: "p".into(),
            url: "u".into(),
            license: "MIT".into(),
            snippets: vec![Snippet { line: 12, text: "x\n\u{1b}y".into() }],
        },
        SearchResult {
            repository: "b/r".into(),
            path: "q".into(),
            url: "v".into(),
            license: "MIT".into(),
            snippets: Vec::new(),
        },
    ];
    assert_eq!(
        render_human(&results, false),
        "Repository: a/r\nPath: p\nURL: u\nLicense: MIT\nSnippet (line 12):\n  x\n  \\u{001B}y\n\nRepository: b/r\nPath: q\nURL: v\nLicense: MIT\n"
    );
    assert_eq!(
        render_human(&results[1..], true),
        "\x1b[1mRepository:\x1b[0m b/r\n\x1b[1mPath:\x1b[0m q\n\x1b[1mURL:\x1b[0m v\n\x1b[1mLicense:\x1b[0m MIT\n"
    );
}

#[test]
fn colors_snippet_headings() {
    let results = [SearchResult {
        repository: "a".into(),
        path: "p".into(),
        url: "u".into(),
        license: "l".into(),
        snippets: vec![Snippet { line: 7, text: "".into() }],
    }];
    assert!(render_human(&results, true).ends_with("\x1b[1;36mSnippet (line 7):\n\x1b[0m  \n"));
}

#[test]
fn color_policy_covers_every_case() {
    assert!(use_color(Color::Auto, true, false));
    assert!(!use_color(Color::Auto, false, false));
    assert!(!use_color(Color::Never, true, false));
}

#[test]
fn only_a_closed_pipe_counts_as_completion() {
    assert!(is_broken_pipe_failure(OutputFailure::BrokenPipe));
    assert!(!is_broken_pipe_failure(OutputFailure::Other));
}

#[test]
fn recognizes_broken_pipe_errors_of_every_form() {
    assert!(is_broken_pipe(&io::Error::new(io::ErrorKind::BrokenPipe, "closed")));
    assert!(!is_broken_pipe(&io::Error::from(io::ErrorKind::Interrupted)));
}

#[test]
fn colored_escapes_only_begin_decorations() {
    let result = SearchResult {
        repository: "r\u{1b}[31m".into(),
        path: "p".into(),
        url: "u".into(),
        license: "l".into(),
        snippets: vec![Snippet { line: 3, text: "a\u{1b}b\nc".into() }],
    };
    let output = render_human(&[result], true);
    for (index, c) in output.char_indices() {
        if c == '\u{1b}' {
            let rest = &output[index..];
            assert!(
                rest.starts_with("\u{1b}[1m")
                    || rest.starts_with("\u{1b}[0m")
                    || rest.starts_with("\u{1b}[1;36m")
            );
        }
    }
    assert!(output.contains("r\\u{001B}[31m"));
}
