# dpcrawler

The core of DPCrawler, a crawler and local search engine for RAG knowledge
bases, written in Verus. The functions in `src/` carry contracts that Verus
proves; the calls into outside crates (`serde_json`, `serde_yaml`, `base64`,
`mime_guess`, `url`) and a few `std` functions go through small trusted
wrappers, marked `#[verifier::external_body]`, whose contracts Verus takes
on trust and which the proofs build on.

- `text`, `tokenize`: character-level text operations and the search tokenizer
  (lowercased words, ASCII punctuation trimmed, CJK bigrams).
- `index`, `extract`, `result`, `catalog`: the full-text index with its term
  and document counts, the snippet and dense block of a hit, the links of a
  hit, and the indexing of a site's Markdown documents.
- `crawl_output`, `sidecar`: reading the crawler process's output, and the
  configuration handed to it.
- `records`: what `serde_json` reads from the crawler's JSON records.
- `paths`, `sites`, `control`, `serve`: where files live, the site list and
  site indexes, command replies and server options, and what the file server
  sends.
- `gui`, `preview`: the state of the desktop front end and the blocks its
  preview pane draws.

`app/` holds what stays outside the proofs: the HTTP server, the file system
and process calls, the floating-point relevance ranking, and the egui drawing
of the front end.
