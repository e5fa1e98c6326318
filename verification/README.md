# ekuke

The verified core of EKUKE, a local-first OSINT investigation workbench:
a case holds a graph of entities and relationships, indicators are pulled
out of free text, enrichment plugins add to the graph, notes are searched,
and an assistant drives all of it through tools.

## Layout

- `src/` — the library, verified with Verus.
  - `text.rs`: character-level string functions with exact specifications
    (splitting on white space, joining, replacing, trimming, byte slicing).
  - `ids.rs`, `paths.rs`: random UUIDs, the clock and path joining.
  - `entity.rs`: entities, relationships and their property lists
    (read-after-write, distinct keys, merging).
  - `collect.rs`: extraction of e-mails, IPv4 addresses, domains, phone
    numbers and handles from text with `regex`.
  - `plugin.rs`, `merge.rs`: plugin manifests, argument placeholders, and how
    a plugin's output joins the graph.
  - `case.rs`, `config.rs`, `db.rs`: case layout on disk, settings and their
    defaults, query text for the graph store.
  - `search.rs`: result limits, indexed file types and hit snippets.
  - `ai.rs`: endpoint handling, the bounded tool loop, tool dispatch, tool
    definitions and the case summary counts.
- `tests/` — tests of the library on concrete values.
- `app/` — the application shell: a JSON-lines command loop, the SQLite
  graph store, the tantivy note index, plugin processes, the HTTP chat client
  and the serde forms of the library's types.
