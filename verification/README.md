# easy_archive

A library, verified with Verus, for an archiver aimed at ZIP files whose
entry names come in mixed encodings (UTF-8 with the language flag,
Shift-JIS, or code page 437), and a small application around it.

Layout:

- `src/encoding.rs` — deciding and decoding the encoding of each entry name.
- `src/paths.rs` — Unix path strings as components; names, parents, joining.
- `src/auto.rs` — what `auto` does with a path: extract a `.zip` file next to
  itself, compress anything else next to itself; the result messages.
- `src/extract.rs`, `src/compress.rs` — per-entry decisions of extraction
  (names may not leave the destination) and entry names of new archives.
- `src/integration/` — right-click menu files for Nemo, Dolphin, Nautilus,
  PCManFM-Qt, and the merge into (and removal from) Thunar's `uca.xml`.
- `src/update.rs` — version comparison, release asset selection, checksum
  file lookup and SHA-256 verification.
- `src/drop.rs` — the drop area's decision.
- `src/text.rs` — character-level helpers with their specifications.
- `app/` — the command line (`list`, `compress`, `extract`, `auto`,
  `install-integration`, `gui`), archive and file system I/O with the `zip`
  crate, the JSON reading of releases, and the drop window.
