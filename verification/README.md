# m1_features

The features of a language server for M1 scripts, as a verified library: hover, completion,
definitions, references, highlights, renames, code actions, code lenses, call hierarchy,
outline, folds, selections, semantic tokens, inlay hints and document links.

The functions in `src/` are verified by Verus against their contracts, but for the few calls
into other crates in `src/outside.rs`, whose contracts are taken on trust. The contracts speak
of plain models: a script is its text and its nodes in pre-order (`syntax::Tree`), a project is a list
of symbols and enumerations (`model::ProjectView`), a text is a sequence of characters. What
holds of several functions at once (that offsets invert positions, that a rename reaches every
reference and nothing else, that separate edits all land) stands beside them as public proof
functions.

- `src/text.rs`, `search.rs`, `format.rs`, `order.rs`, `list.rs`: characters, bytes, numbers,
  ordered sets and maps.
- `src/line_index.rs`: byte offsets and positions, in UTF-8 or UTF-16 units.
- `src/syntax.rs`, `locate.rs`: trees, and the paths, segments and locals in them.
- `src/model.rs`, `eval.rs`, `scripts.rs`, `paths.rs`, `attributes.rs`: the project.
- `src/edits.rs`, `src/rename/`: changes, how they are made and what they leave behind.
- `src/hover/`, `src/code_action/` and the other modules: one for each feature.
- `src/outside.rs`: the calls into `url` and `serde_json`, with the contracts that are taken
  on trust.

`app/` answers the requests of the protocol with the library. It reads files, talks in the
types of `lsp_types`, and calls the parser and the type checker through the trait `Language`.

Scripts are not parsed here, nor are names resolved: a tree comes in as nodes, and a `Scope`
says what each path of a script names.
