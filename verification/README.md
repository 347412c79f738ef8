# uxf

A verified library for the Uniform eXchange Format (UXF): a plain text,
human readable, optionally typed storage format that supports custom types
(tclasses). The library's functions are verified by Verus: each is proved
free of panics and overflow and against a contract stated over
mathematical models of its data. The contracts of the whole-text readers
(`tokenize`, `parse`, `parse_options`, `parse_import`, `import_names`)
state the header, the file comment and the imports, and the document
read from a body that is empty, a file comment alone, or plain
definitions and data: tclass definitions with ASCII names and no vtypes
or comments, then nested lists and maps (without ktypes, vtypes or
comments) of ints, reals, nulls and strs. What they read beyond those
(tables, typed or commented collections, other scalars) is proved by the
contracts of the functions they call, not stated for the text as a
whole.

## Layout

- `src/` — the library.
  - Values: `value` (the `Value`, `List`, `UxfMap`, `Table` types, their
    models and compact text), `list`, `map`, `table`, `key`, `datetime`,
    `visit` (walks over values), `naturalize` (reading a str as the value
    it spells), `realtext` (reals held as text: rounding, int to real).
  - Types: `field`, `tclass`, `tclasses`, `check` (name rules), `consts`,
    `order`/`ordering` (the order of fields and tclasses).
  - Reading: `header`, `numbers`, `token`, `lexer`, `parser`, `imports`.
  - Documents: `uxf` (the `Uxf` document, its text, comparison), `event`,
    `error`, `format`, `text`, `util`.
- `tests/` — tests of the library.
- `app/` — the `uxf` command line tool (compare, format, lint), which reads
  and writes files (optionally gzip-compressed) and fetches URL imports.

Reals are held as the text they are written with; the library uses no
floating-point numbers, so two reals compare equal when their texts are
the same, and a real is written back as the text it was read from.
Documents are written as compact UXF text (`Uxf::to_string`); the library
has no pretty printer.
