# hayagriva_ffi

Citation formatting over [hayagriva](https://crates.io/crates/hayagriva),
verified with Verus: a context that holds a BibLaTeX bibliography, an
embedded CSL style and a locale, answers with JSON documents for a host
(the styles and locales on offer, the entries of the bibliography, rendered
citations and bibliography entries as formatted runs), and a command-line
renderer that prints the citations and bibliography of a file of citation
groups.

## Layout

- `src/` — the verified library.
  - `diagnostics.rs`: display columns (tabs, wide characters), line bounds,
    one-based line and column numbers and a one-line excerpt with a caret,
    for messages about BibLaTeX errors.
  - `bibliography.rs`: BibLaTeX errors as plain values and their messages.
  - `document.rs`: rendered output as plain values.
  - `json.rs`: formatted runs, edge trimming, and the JSON documents.
  - `styles.rs`: which embedded styles are offered, under which key, in
    which order; the embedded locales.
  - `ctx.rs`: the context and its setters and queries.
  - `terminal.rs`: rendered output as terminal lines (plain or VT100).
  - `cli.rs`: the command line, the citation-file format, and the reports.
  - `laws.rs`: properties of the library as a whole, proved.
  - `bindings.rs`: every call into hayagriva, biblatex, citationberg,
    miniserde and unicode-width, each with the contract the library relies
    on.
- `tests/` — tests run against the compiled library.
- `app/` — the program: `main` (files, printing, exit status) and the C ABI
  in `ffi.rs`.
