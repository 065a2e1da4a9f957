# oa_forge

The core of an OpenAPI → TypeScript code generator, written in Verus: the
functions in `src/` carry contracts that Verus proves, except four small
wrappers around outside code whose contracts are trusted:
`text::string_of` (collecting a `String`),
`generate::content_hash` (`DefaultHasher`), `generate::diff_paths`
(`pathdiff::diff_paths`) and `output::to_lowercase` (`str::to_lowercase`).
Each says in its doc comment what is claimed of the outside call.

Keyed maps of the OpenAPI model (`IndexMap` elsewhere) are kept as
`Vec<(String, V)>` in insertion order, with lookup of the first entry under
a key. The model is recursive (a schema's properties are schemas): declared
as an outside type, `IndexMap` must reject recursive value types, and Verus
then refuses the schema type ("recursively uses type ... in a non-positive
position"); held opaquely in a struct of its own, its contents are no
subterm of the schema, and no recursive function over schemas can be proved
to end. The set of refs being followed by
`resolver::detect_circular_refs` is a `Vec<String>`: with `String` keys,
Verus specifies nothing useful of a `HashSet`'s contents.

## Layout

- `src/text.rs` — strings as character sequences: trimming, lines, sorting,
  joining, replacing.
- `src/value.rs` — the JSON/YAML value tree.
- `src/openapi.rs` — the OpenAPI document model.
- `src/parser.rs` — version checks, Swagger 2.0 detection, merging the
  components of referenced files.
- `src/swagger2.rs` — Swagger 2.0 → OpenAPI 3.0 conversion.
- `src/refs.rs` — collecting and rewriting cross-file `$ref`s.
- `src/resolver.rs` — `$ref` lookup and circular-reference detection.
- `src/external.rs` — the decisions of cross-file `$ref` resolution, one
  step at a time: which file to load next, and how a loaded file's
  components are merged in.
- `src/ir.rs`, `src/convert.rs` — the intermediate representation and the
  conversion of a document into it. A `$ref` stays a named reference; only
  the members of an `allOf` are expanded, and a component schema already
  being expanded is skipped there, so conversion ends on every document.
- `src/formatter.rs` — the formatter of generated TypeScript.
- `src/generate.rs`, `src/output.rs`, `src/options.rs` — what a generation
  run decides: options, overrides, headers, output files and barrels.
- `src/migrate.rs` — migrating an Orval configuration.
- `app/` — the command line: file and process I/O, serde models, the
  emitters and the watch loop.
- `tests/` — tests of the library.

The public `law_*` proof functions state properties that relate several
functions (for example, that the formatter never leaves two blank lines in a
row, or that applying endpoint overrides twice changes nothing more).
