# charta

The validator core of "Company as Code": a company description written as markdown files
with YAML frontmatter envelopes, checked for well-formedness (L0), referential integrity
(L1) and per-type required fields (L2), with its reference graph, orphans, backlinks and the
plan that compares a baseline description with the current one.

## Layout

- `src/` — the library, verified with Verus. Every public function states what it returns
  in its contract; `laws`, `load_laws`, `validate_laws` and `plan_laws` hold the properties
  that span several functions (green descriptions resolve their references, an orphan is
  exactly a node without backlinks, a plan of a description against itself is empty, each
  duplicate address is reported once per extra resource, validation reports a reference
  error for an address exactly when a resource there holds a broken reference, and others).
  - `text`, `ids`, `frontmatter`, `yaml`: strings, identifiers and addresses, the
    frontmatter split and prose links, the YAML value model.
  - `model`, `load`, `discover`, `validate`: resources and findings, discovery and L0,
    the directory walk's rules, L1 and L2.
  - `graph`, `graph_text`, `sorted`, `plan`, `report`, `rpc`: the graph, its queries and its
    Mermaid and DOT text, sorted lists,
    plans and their rendering, report lines, the MCP server's routing.
- `tests/` — tests of the library on concrete values.
- `app/` — the `charta` command line and MCP server: file walking, YAML and JSON
  (de)serialisation, git, stdin/stdout. It hands plain values to the library.
