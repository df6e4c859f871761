# sempkg

`sempkg` installs version-pinned semantic bundles (a code graph, a documentation index and
a source index of one dependency) into a workspace, and serves them to agents over MCP.

The library under `src/` holds what the program decides and computes, and Verus verifies all
of it. The program under `app/` reads, writes, sends and prints.

| Part | Modules |
|------|---------|
| Texts, numbers, orders, maps | `text`, `pieces`, `strmap`, `rank`, `paths` |
| JSON and TOML | `json`, `wire`, `toml_doc` |
| Workspace manifest and lock file | `manifest`, `deps`, `settings` |
| Where bundles come from | `github`, `sources`, `adding`, `packing`, `registry` |
| What is installed | `store`, `versions`, `packages`, `lookup` |
| Documents and source code | `chunker`, `indexing`, `lance`, `docs`, `qmd` |
| Code graphs | `codegraph`, `graph`, `symbols` |
| Searching and ranking | `query_expansion`, `search`, `hits`, `windows`, `session`, `candidates`, `reranker` |
| Models | `accel`, `embedding`, `inference`, `providers`, `openai` |
| The MCP server and what is shown | `mcp`, `report`, `messages`, `status`, `error` |

Each function says in its contract what it returns, over spec functions and views of the
same module. What holds of several functions together stands as a public proof function
next to them, such as `chunker::chunks_hold_all_content` or
`hits::fusing_keeps_every_share`.

A few calls go to other crates: reading URLs, JSON and TOML, matching globs, hashing, and
finding the home directory. Each is behind a small function marked
`#[verifier::external_body]` whose comment says what is believed of it.

Scores are floating-point numbers, which stay in `app/`. The library orders them by a key
(`rank::score_key`) and shows them as they were written out.
