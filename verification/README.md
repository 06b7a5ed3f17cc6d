# lxir

A Verus-verified library for Loxone Miniserver configuration documents
(`.Loxone` XML) treated as source code.

- `xml`: a lossless concrete-syntax model of the XML. Parsing and writing are
  both specified exactly (`xml_parse`, `doc_text`). `lossless` proves that
  parsing what the writer emits gives back the same document, for every
  document in Loxone's own layout.
- `doc`: a semantic read layer over a document: objects, ports, wires, and
  counters.
- `uuid`: the anatomy of Loxone UUIDs, and a deterministic minter.
- `connectors`: port-direction knowledge, from a builtin table and from
  evidence in real configs.
- `lock`: the lockfile that pins slugs to UUIDs.
- `ir`: the textual intermediate representation. It covers the lexer, the
  parser, validation, template expansion and expression desugaring,
  canonical text, renames, decompilation, lints, and adoption checks.
- `diff`, `status`: semantic diffs between configs, and drift triage.
- `project`: the project file.

`app/` is the command-line program: argument handling, file I/O, and the
JSON form of the lockfile. It calls the library for all of the logic.
