# docsniffer

The logic of DocSniffer, a local document search and sensitive-content
detection tool, as a library whose behaviour is stated in contracts and
proved.

- `src/engine/searcher` — query rewriting (`size:>10mb`, `mtime:>2026-01-01`),
  highlight terms and result snippets.
- `src/engine/indexer` — the index schema (fields and their options), the
  streaming CJK tokenizer, document ids and the per-document content budget.
- `src/engine/extractor` — which extractor a file goes to, size and archive
  limits, Office XML to text, text decoding.
- `src/engine/sensitive` — detection rules and per-file / per-directory scans.
- `src/engine/batch` — the import-batch list (newest first) and batch ids.
- `src/engine/scanner`, `paths`, `storage`, `watcher` — walk decisions, path
  components, the store layout, change debouncing.
- `src/commands.rs` — what the commands report and decide (index moves).
- `app/` — the command-line shell: disk and index I/O (Tantivy, zip,
  calamine, pdf-extract, office_oxide, walkdir, notify).
