# hyprcollab

Helpers for a desktop AI assistant: document ingestion for retrieval
(parsing and chunking), terminal image preview, provider routing, stream
event handling and assistant-memory utilities. The logic is written in
Verus; every function in `src/` carries a contract that Verus proves.

## Layout

- `src/` — the verified library.
  - `text`, `split`, `paths` — byte-level string helpers (trimming, finding,
    splitting, joining, file-name parts) with their specifications.
  - `document`, `parser`, `plain`, `code`, `markdown`, `html`, `tabular`,
    `pdf` — document parsers and the dispatcher that picks one by extension.
  - `chunker` — the recursive character splitter and chunk metadata.
  - `capabilities`, `kitty`, `sixel`, `preview` — terminal graphics
    detection and image encoding.
  - `image_types`, `image_results` — image-generation request options and
    the decoding of provider responses.
  - `routing`, `streaming`, `provider_forms` — provider registries, the
    per-event decisions of streamed answers, and chat requests and answers
    in the shapes of the providers' protocols.
  - `facts`, `templates`, `usage`, `export`, `threads`, `prompt`,
    `records` — memory helpers: fact categories, template rendering and
    the built-in templates, token-usage summaries, Markdown export, reply
    threads and trees, the memory block of the system prompt (merging near
    duplicates, the character budget), and the decoding of stored rows.
- `tests/` — tests that run the compiled library.
- `app/` — the parts that need the environment, the network, serde
  derives, SQLite, floating point or raw stream parsing, built on the
  library.

Calls into outside crates (csv, serde_json, lopdf, html5ever,
pulldown-cmark, mime_guess, uuid, base64, image) stand behind small trusted
wrappers whose contracts say what the crates' documentation and source
promise; everything around them is verified.
