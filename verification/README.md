# trace_graph

Trace indexes a repository into a graph of files, symbols and the relations
between them (imports, calls, UI handlers, HTTP routes, cross-layer fetches and
control-flow branches), and answers queries over that graph: search, callers,
callees, impact, entry points, traces and scoped subgraphs with an optional
runtime overlay.

## Layout

- `src/` — the library, verified with Verus. Each public function states in
  its contract what it returns, over the parse that tree-sitter gives
  (`ts_nodes`) and the matches that the `regex` crate gives
  (`regex_captures`) where it depends on them; the laws of the library are
  public proof functions (`insert_then_find`, `impact_is_ordered_set`,
  `trace_never_revisits`, `subgraph_stays_in_scope`,
  `neighbors_follow_call_edges`, `capabilities_count_every_file_once`,
  `lemma_record_then_find`, ...).
  - `walk`, `ingest`, `extract`, `resolve`, `framework`, `cfg`, `pipeline`:
    from the files of a repository to the graph.
  - `store`, `engine`, `overlay`, `otel`: the graph and its queries.
  - `server`, `hosted`, `mcp`, `json`, `export`: the decisions behind the
    HTTP API, the hosted registry, the MCP tools and the JSON export.
  - `syntax` and `pattern` reach tree-sitter and the `regex` crate through
    a few trusted items, the parse and the matches named; everything built on them
    is verified.
- `tests/` — tests of the library.
- `app/` — the programs around it: the HTTP server (axum), the MCP server over
  stdio, walking and reading the repository on disk, SQLite persistence and the
  JSON shapes of the API.
