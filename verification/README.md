# pf2e-companion

A PF2e Remaster + Christian Biblical worldview reference and worldbuilding
companion. The core is a Verus library: its functions carry contracts over
mathematical models (`Seq`, `Map`, `int`, views of the data types) and are
proved against them. A few small wrappers around std and `pulldown-cmark`
(string building, Unicode lower-casing, hashing, `{:?}` quoting, markdown
parsing) are trusted: their contracts are stated, not proved, and each
says in its doc comment what it claims of the call it makes.

## Layout

- `src/` — the verified library.
  - `text` — slugs, trimming, decimal and hex text, char helpers.
  - `json` — the JSON value the logic reads, its views, and the recursive
    superset check used to grade tool calls.
  - `rules` — encounter XP budgets, creature XP by level difference, the
    statblock validator.
  - `sse`, `ollama`, `anthropic` — stream framing (SSE frames, NDJSON lines),
    request bodies and the event decoders of the two LLM providers.
  - `llm`, `llm_tools` — messages, usage totals, provider configuration, the
    tool list, tool-call routing and the agent's decision loop.
  - `rag` — paragraph chunking, embedding batches, reciprocal-rank fusion of
    full-text and vector hits.
  - `content`, `vault`, `vault_write`, `foundry`, `markdown` — frontmatter
    splitting, entity rows from vault and bundled files, campaign and entity
    paths, ids and frontmatter, Foundry record reading, markdown to text.
  - `eval` — grading agent runs against a prompt suite.
  - `commands`, `keystore` — what the IPC commands decide, keychain names.
- `app/` — the shell around it: SQLite (FTS5, sqlite-vec), the vault watcher,
  HTTP to the providers, the keychain, the command surface. It reads, writes, sends,
  converts between the wire formats (YAML, JSON text) and the library's
  values, and calls the library for the decisions.
- `tests/` — tests of the library on concrete values.

The laws the library keeps across calls (stream framing independent of how
the bytes are split, fusion falling back to full-text order, paths that
stay inside their campaign, usage totals, grading) are public proof
functions named `law_*`.
