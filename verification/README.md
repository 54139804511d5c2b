# strz_analysis

Analysis of Structurizr DSL workspaces, verified with Verus.

## Layout

- `src/` — the verified library.
  - `syntax.rs`, `extract/`: the syntax tree model and the extraction of symbols,
    references, metadata, tags, identifier modes and semantic facts from it.
  - `snapshot.rs`, `local_resolution.rs`: one analyzed document and the resolution of its
    references within the document.
  - `rule.rs`, `rules.rs`, `diagnostics.rs`: the diagnostic rules and reports.
  - `workspace/`: multi-document workspaces — the restartable loader that asks for documents
    and filesystem probes (`loader.rs`), include resolution (`discovery.rs`), include cycles
    and findings, binding tables, reference resolution, the semantic rules, and the merged
    facts of one load (`facts.rs`).
- `tests/` — tests of the library.
- `app/` — the I/O around the library: parsing documents with tree-sitter, reading files,
  scanning roots and answering the loader's requests from the filesystem.

Every public function of `src/` states its result in its `ensures`; the laws that relate
several functions stand as public proof functions or in the contracts of the functions they
are about.

`DocumentSyntaxFacts::collect` takes a document's `!include` and `!constant` directives from
its caller. `app/` hands it none, so a load through `app/` follows no include and defines no
constant; the loader in `src/` follows whatever directives it is given.
