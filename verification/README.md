# sail

Verified row-level logic of a handful of Spark-compatible SQL functions and
table helpers, with a thin DataFusion layer around it.

- `src/` — the library, verified with Verus:
  - `sentences` — `sentences(str)`: sentences of a text, each as its words.
  - `pattern` — compiled regular expressions of the `regex` crate, kept
    with the pattern they were compiled from, and the calls into that crate.
  - `regexp_extract_all` — `regexp_extract_all(str, regexp[, idx])` over
    columns and argument type coercion.
  - `random` — how a `random([seed])` call is seeded.
  - `schema_adapter` — mapping table fields onto data-file fields by name.
  - `noop` — the `noop` table format.
  - `text` — character helpers and the calls into `char`/`String`.
- `tests/` — tests of the library on concrete values.
- `app/` — arrow conversions, `ScalarUDFImpl` and `SchemaAdapter` impls,
  stream merging and floating-point random draws.
