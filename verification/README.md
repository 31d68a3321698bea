# ron_schema

Schema definition and validation for RON (Rusty Object Notation) files, written in Verus.
A `.ronschema` file describes the shape of `.ron` data; the library parses both, validates
data against a schema, writes schemas back as text, infers schemas from example data and
resolves schema imports. Every function of the library carries a contract that Verus proves.

## Layout

- `src/span.rs`, `src/text.rs`, `src/number.rs`: source positions, byte classes and the
  whitespace/identifier scanning shared by both parsers, exact decimal numbers.
- `src/ron/`: RON values and their parser, specified by a grammar over bytes (`value_at`).
- `src/schema/`: schema types; `grammar.rs` specifies the schema language over bytes,
  `parser.rs` implements it, `check.rs` specifies and implements the checks made after
  parsing (undefined names, recursive aliases, defaults that do not fit their field).
- `src/validate.rs`: validation, specified by `validation(schema, value)`; regular
  expressions for `@pattern` come from the `regex` crate through two trusted wrappers.
- `src/report.rs`, `src/diagnostic.rs`: error codes, messages, rustc-style rendering, source
  line extraction and the machine-readable entries of a file's results.
- `src/infer.rs`, `src/format.rs`, `src/resolve.rs`: schema inference, schema text, imports.
- `src/properties.rs`, `src/roundtrip.rs`: properties proved of the whole library: what
  validation reports and when, what a parsed schema guarantees, how imports merge, and that
  formatted (and inferred) schemas parse back.
- `app/main.rs`: the command-line tool (`validate`, `init`), with file I/O and JSON output.
- `tests/`: the test suite.
