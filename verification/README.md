# vorto

The core of a modal text editor for the terminal: its buffers, motions, text
objects, commands, prompts, pickers, settings, and its dealings with language
servers, formatters and grammars. The core is written in Verus: every function
under `src/` states in its contract what it does, and Verus proves it.

- `src/` is the library. `editor` holds the document and the edits on it,
  `app` the editor around its buffers, `config` the settings, `finder` the
  picker with its fuzzy scores, `lsp` the bookkeeping of language servers,
  `highlight` and `syntax` the captures of syntax trees, `grammar` and `copilot`
  what is decided around those programs. `text`, `path`, `number` and `strmap`
  are what these share.
- `tests/` runs the library on concrete values.
- `app/` is the program around it: the terminal, files, processes, threads and
  the clipboard. It reads and writes; what is to be done is asked of the
  library.

A document is modelled by `Doc` (`Buffer@`), the editor by `Desk` (`App@`), and
the servers' bookkeeping by `Board` (`LspCoordinator@`). A function that changes
one of them is specified by a function on its model. What holds across
functions stands in proof functions whose names start with `law_`.

What is not proved is what other crates and the standard library do. The places
where the library relies on them are marked, each with a comment that says what
is relied on: the character classes and case mappings of the standard library
in `text`, the clock in `app::status`, the quoting of strings as JSON in
`lsp::wire`, and the parser and query engine of tree-sitter in `syntax`.
