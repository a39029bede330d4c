# uns_editor

A browser text editor for traditional Mongolian script (vertical columns)
and Cyrillic, built on cosmic-text and compiled to WebAssembly.

The editing rules live in a library that Verus verifies:

- `src/text.rs` — characters, UTF-8 byte offsets, trimming and splitting.
- `src/editor_core/` — Mongolian format-control aware Backspace/Delete,
  word boundaries, undo grouping and history, key handling decisions,
  canvas padding and clipping, noun case-suffix suggestions, word
  suggestions, events and commands.
- `src/dictionary/` — the Cyrillic → Mongolian dictionary: TSV parsing,
  lookup and ranked completions.
- `src/plugins/find_replace.rs` — find and replace over the buffer's lines.
- `src/config/` — settings, colors as hex text, themes and keybindings.

`app/` is the unverified browser side: the `WasmEditor` object, event
handling, painting, fetching files, and the JSON forms of the settings.
`tests/` runs the library on concrete inputs.
