use grep_cli::parse::{parse_search_texts, snippet_header};
use grep_cli::{SearchResult, Snippet};

#[test]
fn keeps_metadata_like_code_inside_a_snippet() {
    let text = "Repository: owner/repo\nPath: a.rs\nURL: https://example.test/a\nLicense: MIT\n\nSnippets:\n--- Snippet 1 (Line 4) ---\nRepository: not a header\nPath: code\nlet x = 1;";
    let results = parse_search_texts(&[text.into()]).unwrap();
    assert_eq!(results.len(), 1);
    assert!(results[0].snippets[0]
        .text
        .contains("Repository: not a header"));
}

#[test]
fn recognizes_complete_next_result_header() {
    let text = "Repository: a/r\nPath: a\nURL: https://a\nLicense: MIT\n\nSnippets:\n--- Snippet 1 (Line 1) ---\nx\nRepository: b/r\nPath: b\nURL: https://b\nLicense: MIT\n\nSnippets:\n--- Snippet 1 (Line 2) ---\ny";
    assert_eq!(parse_search_texts(&[text.into()]).unwrap().len(), 2);
}

#[test]
fn parses_live_no_results_text() {
    assert_eq!(
        parse_search_texts(&["No results found for your query.".into()]).unwrap(),
        []
    );
}

#[test]
fn requires_a_positive_numeric_snippet_ordinal() {
    for header in [
        "--- Snippet first (Line 1) ---",
        "--- Snippet 0 (Line 1) ---",
        "--- Snippet 1.5 (Line 1) ---",
    ] {
        assert_eq!(snippet_header(header), None);
    }
}

#[test]
fn preserves_leading_empty_snippet_lines() {
    let text = "Repository: owner/repo\nPath: a.rs\nURL: https://example.test/a\nLicense: MIT\n\nSnippets:\n--- Snippet 1 (Line 4) ---\n\nfirst code line";
    let results = parse_search_texts(&[text.into()]).unwrap();
    assert_eq!(results[0].snippets[0].text, "\nfirst code line");
}

#[test]
fn parses_a_complete_result_exactly() {
    let text = "Repository: owner/repo\nPath: src/a.rs\nURL: https://example.test/a\nLicense: MIT\n\nSnippets:\n--- Snippet 1 (Line 10) ---\nfn a() {}\n  b();\n--- Snippet 2 (Line 20) ---\nc";
    let results = parse_search_texts(&[text.into()]).unwrap();
    assert_eq!(
        results,
        vec![SearchResult {
            repository: "owner/repo".into(),
            path: "src/a.rs".into(),
            url: "https://example.test/a".into(),
            license: "MIT".into(),
            snippets: vec![
                Snippet { line: 10, text: "fn a() {}\n  b();".into() },
                Snippet { line: 20, text: "c".into() },
            ],
        }]
    );
}

#[test]
fn accepts_snippet_header_with_plus_sign_and_rejects_missing_parts() {
    assert_eq!(snippet_header("--- Snippet 3 (Line 42) ---"), Some(42));
    assert_eq!(snippet_header("--- Snippet +3 (Line +42) ---"), Some(42));
    assert_eq!(snippet_header("--- Snippet 3 (Line 0) ---"), None);
    assert_eq!(snippet_header("--- Snippet 3 (Line 42)"), None);
    assert_eq!(snippet_header("--- Snippet 3 Line 42) ---"), None);
    assert_eq!(snippet_header("--- Snippet 3 (Line 18446744073709551616) ---"), None);
    assert_eq!(
        snippet_header("--- Snippet 3 (Line 18446744073709551615) ---"),
        Some(u64::MAX)
    );
}

#[test]
fn blank_text_yields_no_results() {
    assert_eq!(parse_search_texts(&["  \n\t ".into()]).unwrap(), []);
    assert_eq!(
        parse_search_texts(&["\n No results found for your query. \r\n".into()]).unwrap(),
        []
    );
    assert_eq!(parse_search_texts(&[]).unwrap(), []);
}

#[test]
fn refuses_text_without_a_leading_header() {
    assert_eq!(
        parse_search_texts(&["hello".into()]).unwrap_err(),
        "server search text does not begin with a complete result header"
    );
}

#[test]
fn refuses_text_before_the_first_snippet() {
    let text = "Repository: a/r\nPath: a\nURL: u\nLicense: MIT\n\nSnippets:\nstray \u{1b}line";
    assert_eq!(
        parse_search_texts(&[text.into()]).unwrap_err(),
        "unexpected server text before snippets: stray \\u{001B}line"
    );
}

#[test]
fn escapes_controls_in_metadata_and_snippets() {
    let text = "Repository: a\u{202e}/r\nPath: p\nURL: u\nLicense: MIT\n\nSnippets:\n--- Snippet 1 (Line 1) ---\nx\u{7}y\r\nz";
    let results = parse_search_texts(&[text.into()]).unwrap();
    assert_eq!(results[0].repository, "a\\u{202E}/r");
    assert_eq!(results[0].snippets[0].text, "x\\u{0007}y\nz");
}

#[test]
fn refuses_too_many_results_over_all_items() {
    let one = "Repository: a/r\nPath: a\nURL: u\nLicense: MIT\n\nSnippets:\n".repeat(1);
    let hundred: String = one.repeat(100);
    let texts = vec![hundred.clone(), hundred.clone()];
    assert_eq!(parse_search_texts(&texts).unwrap().len(), 200);
    let texts = vec![hundred.clone(), hundred, one];
    assert_eq!(
        parse_search_texts(&texts).unwrap_err(),
        "server returned too many results"
    );
}

#[test]
fn refuses_too_many_snippets_in_one_result() {
    let mut text = String::from("Repository: a/r\nPath: a\nURL: u\nLicense: MIT\n\nSnippets:\n");
    for i in 1..=201 {
        text.push_str(&format!("--- Snippet {i} (Line {i}) ---\nx\n"));
    }
    assert_eq!(
        parse_search_texts(&[text]).unwrap_err(),
        "server returned too many snippets"
    );
}

#[test]
fn refuses_oversized_items_and_snippets() {
    let big = "a".repeat(512 * 1024 + 1);
    assert_eq!(
        parse_search_texts(&[big]).unwrap_err(),
        "server text item is too large"
    );
    let text = format!(
        "Repository: a/r\nPath: a\nURL: u\nLicense: MIT\n\nSnippets:\n--- Snippet 1 (Line 1) ---\n{}",
        "b".repeat(256 * 1024 + 1)
    );
    assert_eq!(
        parse_search_texts(&[text]).unwrap_err(),
        "server snippet is too large"
    );
}

#[test]
fn accepts_every_header_whose_numbers_parse_as_positive() {
    assert_eq!(snippet_header("--- Snippet 1 (Line 4) ---"), Some(4));
    assert_eq!(snippet_header("--- Snippet 007 (Line +12) ---"), Some(12));
    assert_eq!(snippet_header("--- Snippet 2 (Line 0) ---"), None);
    assert_eq!(snippet_header("--- Snippet 1 (Line 2) (Line 3) ---"), None);
    assert_eq!(snippet_header("--- Snippet 1 (Line 18446744073709551616) ---"), None);
}
