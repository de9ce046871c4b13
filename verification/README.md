# arxiv2md

Converts arXiv papers into Markdown for language-model workflows. A paper is
resolved through a fallback chain — arXiv HTML, ar5iv HTML, the LaTeX source
(converted with pandoc) and finally the PDF — and rendered with optional YAML
frontmatter, an outline, section filtering and reference removal.

The library under `src/` is written in Verus: each public function carries a
contract over mathematical models of its inputs and outputs, and the
properties the tool promises (section filtering, reference removal, the order
of the fallback chain, cache expiry, identifier parsing) are stated and
proved as `law_*` proof functions.

- `text`: the character-level model (whitespace, trimming, lines, words).
- `id`: arXiv identifiers and URLs.
- `metadata`: the Atom feed of the arXiv API.
- `dom`, `html`: the tree of an HTML page and its conversion to sections.
- `markdown`, `sections`: section trees, filtering, cleanup and rendering.
- `latex`, `pdf`: choosing the main `.tex` file; tidying PDF text.
- `cache`, `cli`: cache layout and freshness; command-line options.
- `pipeline`: the fallback chain as a state machine: each step takes what
  came of the last action and says what to do next.

`app/main.rs` is the command: argument parsing, HTTP, the cache on disk,
unpacking source archives, running pandoc, extracting the text of PDFs
(the PDF library may panic on malformed files, so it is only called there)
and writing the output. It performs
the actions the pipeline asks for and feeds back the results.
