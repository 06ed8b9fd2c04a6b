# knowledge_mcp

A knowledge vault of markdown notes joined by `[[wiki links]]`, served to
agents over MCP. The library (`src/`) is written in Verus: its functions carry
contracts that Verus proves, and the calls into outside crates stand
behind a few trusted wrappers whose contracts state what those crates do.

## Layout

- `src/vault`: notes, the markdown parser (pulldown-cmark events to links,
  headings and title), and the vault index with case-insensitive lookup,
  backlinks, broken links, orphans and note-name validation.
- `src/graph`: the link graph (petgraph), with backlinks, outgoing links,
  degrees, orphans and hubs in a stable order of descending degree.
- `src/embedding`: how notes are prepared for semantic search: markdown
  sections, overlapping chunks, keys, link context and content hashes.
- `src/cache.rs`: the LRU content cache (lru) keyed by modification time.
- `src/config.rs`: configuration from environment variables.
- `src/search.rs`: the full-text search: its pattern (compiled with
  grep-regex), each file's bytes searched with grep-searcher, and the
  results it gathers; walking the vault and reading the files is `app/`'s.
- `src/watcher.rs`, `src/server.rs`: the decisions of the file watcher and
  the MCP tools.
- `src/filter.rs`, `src/validation.rs`: sensitive-content filtering and
  note validation.
- `src/text.rs`, `src/order.rs`, `src/paths.rs`: characters, the order of
  strings, and paths.
- `app/`: the server program: file I/O, the embedding model, the file
  watcher and the MCP transport.
- `tests/`: tests of the library.
