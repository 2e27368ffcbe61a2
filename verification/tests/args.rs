use grep_cli::args::{parse, Color, Options, ParseOutcome};

fn args(list: &[&str]) -> Vec<String> {
    list.iter().map(|s| s.to_string()).collect()
}

#[test]
fn parses_double_dash_hyphen_query() {
    let got = parse(args(&["--", "-literal"])).unwrap();
    assert!(matches!(got, ParseOutcome::Run(Options { query, .. }) if query == "-literal"));
}

#[test]
fn rejects_missing_option_value() {
    assert_eq!(parse(args(&["--repo"])).unwrap_err(), "--repo requires a value");
}

#[test]
fn rejects_extra_query() {
    assert_eq!(
        parse(args(&["one", "two"])).unwrap_err(),
        "only one QUERY may be supplied"
    );
}

#[test]
fn rejects_bad_color() {
    assert_eq!(
        parse(args(&["--color", "blue", "x"])).unwrap_err(),
        "--color must be auto, always, or never"
    );
}

#[test]
fn rejects_empty_values() {
    for list in [
        vec![""],
        vec!["--repo", "", "query"],
        vec!["--path", "", "query"],
        vec!["--language", "", "query"],
    ] {
        assert!(parse(args(&list)).unwrap_err().contains("must not be empty"));
    }
}

#[test]
fn caps_timeout_at_practical_limit() {
    assert_eq!(
        parse(args(&["--timeout", "301", "query"])).unwrap_err(),
        "--timeout must be between 1 and 300 seconds"
    );
    assert!(matches!(
        parse(args(&["--timeout", "300", "query"])),
        Ok(ParseOutcome::Run(Options {
            timeout_seconds: 300,
            ..
        }))
    ));
}

#[test]
fn parses_every_option() {
    let got = parse(args(&[
        "--match-case",
        "--match-whole-words",
        "--use-regexp",
        "--repo",
        "rust-lang/rust",
        "--path=compiler",
        "--language",
        "Rust",
        "--language",
        "TSX",
        "--json",
        "--color",
        "never",
        "--timeout",
        "20",
        "struct Foo",
    ]))
    .unwrap();
    assert_eq!(
        got,
        ParseOutcome::Run(Options {
            query: "struct Foo".into(),
            match_case: true,
            match_whole_words: true,
            use_regexp: true,
            repo: Some("rust-lang/rust".into()),
            path: Some("compiler".into()),
            languages: vec!["Rust".into(), "TSX".into()],
            json: true,
            color: Color::Never,
            timeout_seconds: 20,
        })
    );
}

#[test]
fn defaults_apply_without_options() {
    let got = parse(args(&["useState("])).unwrap();
    assert_eq!(
        got,
        ParseOutcome::Run(Options {
            query: "useState(".into(),
            match_case: false,
            match_whole_words: false,
            use_regexp: false,
            repo: None,
            path: None,
            languages: vec![],
            json: false,
            color: Color::Auto,
            timeout_seconds: 15,
        })
    );
}

#[test]
fn reports_help_version_and_unknown_options() {
    assert_eq!(parse(args(&["-h"])).unwrap(), ParseOutcome::Help);
    assert_eq!(parse(args(&["x", "--help"])).unwrap(), ParseOutcome::Help);
    assert_eq!(parse(args(&["-V"])).unwrap(), ParseOutcome::Version);
    assert_eq!(parse(args(&["--version"])).unwrap(), ParseOutcome::Version);
    assert_eq!(parse(args(&["--nope"])).unwrap_err(), "unknown option --nope");
    assert_eq!(parse(args(&["-x"])).unwrap_err(), "unknown option -x");
    assert_eq!(
        parse(args(&[])).unwrap_err(),
        "missing QUERY (use --help for usage)"
    );
}

#[test]
fn rejects_bad_timeouts_and_too_many_languages() {
    assert_eq!(
        parse(args(&["--timeout", "abc", "q"])).unwrap_err(),
        "--timeout must be a positive integer"
    );
    assert_eq!(
        parse(args(&["--timeout", "0", "q"])).unwrap_err(),
        "--timeout must be between 1 and 300 seconds"
    );
    let mut list = vec!["q".to_string()];
    for _ in 0..33 {
        list.push("--language".into());
        list.push("Rust".into());
    }
    assert_eq!(
        parse(list).unwrap_err(),
        "at most 32 --language filters are allowed"
    );
}

#[test]
fn rejects_long_values_and_unexpected_option_values() {
    let query = "q".repeat(4097);
    assert_eq!(
        parse(vec![query]).unwrap_err(),
        "QUERY must be at most 4096 bytes"
    );
    let repo = "r".repeat(1025);
    assert_eq!(
        parse(vec!["--repo".into(), repo, "q".into()]).unwrap_err(),
        "--repo must be at most 1024 bytes"
    );
    assert!(parse(args(&["--json=yes", "q"]))
        .unwrap_err()
        .starts_with("invalid arguments: "));
}

#[test]
fn accepts_attached_values_and_a_signed_timeout() {
    match parse(args(&["--repo=a/b", "--timeout", "+5", "-h"])).unwrap() {
        ParseOutcome::Help => {}
        other => panic!("unexpected outcome {other:?}"),
    }
    match parse(args(&["--repo=a/b", "--timeout", "+5", "q"])).unwrap() {
        ParseOutcome::Run(o) => {
            assert_eq!(o.repo.as_deref(), Some("a/b"));
            assert_eq!(o.timeout_seconds, 5);
        }
        other => panic!("unexpected outcome {other:?}"),
    }
}

#[test]
fn usage_lists_every_option() {
    assert!(grep_cli::args::USAGE.starts_with("Usage: grep-cli [OPTIONS] QUERY"));
    for option in ["--match-case", "--match-whole-words", "--use-regexp", "--repo", "--path",
        "--language", "--json", "--color", "--timeout", "--help", "--version"] {
        assert!(grep_cli::args::USAGE.contains(option));
    }
}

#[test]
fn reports_unconsumed_option_values_as_the_lexer_words_them() {
    assert_eq!(
        parse(args(&["--json=yes", "q"])).unwrap_err(),
        "invalid arguments: unexpected argument for option '--json': \"yes\""
    );
    assert_eq!(parse(args(&["-hV"])).unwrap(), ParseOutcome::Help);
    assert_eq!(parse(args(&["-", "--repo=r"])).unwrap(), ParseOutcome::Run(Options {
        query: "-".into(),
        match_case: false,
        match_whole_words: false,
        use_regexp: false,
        repo: Some("r".into()),
        path: None,
        languages: vec![],
        json: false,
        color: Color::Auto,
        timeout_seconds: 15,
    }));
    assert_eq!(
        parse(args(&["--language", "--json", "q"])).unwrap(),
        ParseOutcome::Run(Options {
            query: "q".into(),
            match_case: false,
            match_whole_words: false,
            use_regexp: false,
            repo: None,
            path: None,
            languages: vec!["--json".into()],
            json: false,
            color: Color::Auto,
            timeout_seconds: 15,
        })
    );
}
