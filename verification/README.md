# agents_docs_manager

The library behind `adm`, a command-line tool that manages the repository-local
`docs.json` and the markdown documents it governs: namespaces (subdirectories of
the documents directory), documents with a fixed metadata header (`# <title>`
followed by `本文说明<description>。`), a docs tree, a managed index block in
`AGENTS.md`, checks of the naming style and a migration to it.

Layout:

- `src/` — the verified library. Every command is decided here from what was
  read on disk; `utils/` holds text, paths, naming styles, docs.json, the
  metadata header, errors and output; `document/` and `namespace/` hold the
  commands; `cli.rs` the command enums.
- `app/` — the `adm` program: argument parsing, reading and writing files, and
  the calls into the library.
- `tests/` — tests of the library on concrete values.
