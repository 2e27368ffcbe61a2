# grep_cli

A small command-line client for searching public GitHub code through the
`mcp.grep.app` MCP service, with its logic verified by Verus.

## Layout

- `src/` is the verified library.
  - `args.rs`: the command-line rules and input limits; `lexopt` splits the
    command line into items, and each item is applied by verified code.
  - `parse.rs`: the parser for the service's formatted search text, with its
    meaning stated as a line-by-line state machine (`step`, `run`).
  - `sanitize.rs`: escaping of terminal controls and bidirectional controls.
  - `render.rs`: the plain (optionally colored) rendering of results.
  - `transport.rs`: the JSON-RPC and SSE checks of MCP replies, over the
    library's own model of a JSON value.
  - `session.rs`: the order of the MCP exchange, as a step function from the
    reply to the last request to the next request.
  - `failure.rs`: the failures of a run and their exit statuses.
  - `text.rs`: character-level helpers, each specified on `Seq<char>`.
- `tests/`: tests of the library on concrete values.
- `app/`: the executable: argument collection, HTTP through `ureq`, JSON
  decoding and encoding through `serde_json`, and output.

## What is proved

Every public function of `src/` states its result in terms of spec functions over
`Seq<char>` and the views of the result types. The command-line parser is stated
over a model of what the `lexopt` lexer holds (`LexState`) and hands over
(`lex_next`, `lex_value`), so `parse` is pinned to its arguments. Proof functions
state the library's laws, among them: sanitized text holds no control or
bidirectional character and sanitizing is idempotent; every parsed result has
non-empty, terminal-safe metadata and positive snippet lines; a search yields at
most 200 results; the rendering, with or without color, holds no control character
but newlines and escape characters that each begin one of its own ANSI
decorations; every accepted command line respects the
input limits; a snippet header is accepted exactly when its ordinal and line
parse as positive numbers; a reply yields a result exactly when one message answers the request
and the rest are notifications; and a session makes exactly the initialization and
one search call.

The calls into `lexopt`, `std::io::Error::kind`, `str::from_utf8` and
`String::from_iter` are behind small trusted wrappers whose contracts are
documented where they are declared.
