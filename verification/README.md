# eru — EPUB rename utility

Renames EPUB files from their embedded metadata using patterns such as
`{author} - {title} ({year})`, and enriches that metadata from Open Library.

Layout:

- `src/` — the verified library (Verus). Metadata normalisation (`metadata`), filename
  templating and renames (`rename`), paths and their order (`paths`, `order`), scanning
  (`scanner`), catalogue queries and records (`provider`), text normalisation for matching
  (`matcher`), the enrichment and rename decisions (`enrich`, `conflict`), the `ebook-meta`
  command line (`writer`), and shared text operations (`text`).
- `app/` — the command-line program: argument parsing, reading EPUB files, HTTP requests,
  confidence scoring (floating point), running `ebook-meta`, moving files, prompting.
- `tests/` — tests of the library.
