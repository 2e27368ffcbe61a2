//! Parsing, sanitizing and rendering of grep.app search results, with the
//! argument and protocol checks of the command-line client.

pub mod args;
pub mod failure;
pub mod parse;
pub mod render;
pub mod sanitize;
pub mod session;
pub mod text;
pub mod transport;

use vstd::prelude::*;

verus! {

/// A search result returned by grep.app's formatted MCP tool response.
#[derive(Debug, Clone, PartialEq, Eq)]
pub struct SearchResult {
    pub repository: String,
    pub path: String,
    pub url: String,
    pub license: String,
    pub snippets: Vec<Snippet>,
}

/// One source excerpt and the source line at which it starts.
#[derive(Debug, Clone, PartialEq, Eq)]
pub struct Snippet {
    pub line: u64,
    pub text: String,
}

/// The mathematical value of a [`Snippet`].
pub struct SnippetView {
    pub line: u64,
    pub text: Seq<char>,
}

/// The mathematical value of a [`SearchResult`].
pub struct ResultView {
    pub repository: Seq<char>,
    pub path: Seq<char>,
    pub url: Seq<char>,
    pub license: Seq<char>,
    pub snippets: Seq<SnippetView>,
}

impl View for Snippet {
    type V = SnippetView;

    open spec fn view(&self) -> SnippetView {
        SnippetView { line: self.line, text: self.text@ }
    }
}

impl View for SearchResult {
    type V = ResultView;

    open spec fn view(&self) -> ResultView {
        ResultView {
            repository: self.repository@,
            path: self.path@,
            url: self.url@,
            license: self.license@,
            snippets: snippet_views(self.snippets@),
        }
    }
}

/// The values of a sequence of snippets.
pub open spec fn snippet_views(s: Seq<Snippet>) -> Seq<SnippetView> {
    s.map_values(|x: Snippet| x@)
}

/// The values of a sequence of results.
pub open spec fn result_views(s: Seq<SearchResult>) -> Seq<ResultView> {
    s.map_values(|x: SearchResult| x@)
}

} // verus!
