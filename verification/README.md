# veloterm

The verified core of a GPU terminal emulator, written in Verus. Every
function under `src/` carries a `requires`/`ensures` contract that Verus
proves; `app/` is the unverified program around it (window, PTY, processes,
floating-point geometry).

## Layout

- `src/input/` — key model and key encoding (`translate_key`), shortcut
  matching, clipboard chords and bracketed paste, text selection
  (normalisation, hit testing, text extraction, selected-cell flags).
- `src/pane/` — pane ids, the binary pane tree (split, close, zoom, focus,
  split ratios) with its leaf-order model and laws, header badges, cursor
  shapes over dividers.
- `src/link/` — URL detection through `linkify`, file-path detection,
  the per-scan link cache, and the command that opens a link.
- `src/renderer/` — damage tracking (row diffs, per-pane state, frame
  timing), cursor state and flags, grid cells, image placement layers, UI
  messages.
- `src/pty/`, `src/platform/` — shell choice, shell integration choice,
  process names, `/proc` and `dscl` output parsing.
- `src/markdown_preview.rs` — `~` and working-directory path expansion.
- `src/text.rs`, `src/clock.rs` — character classes and string conversion;
  durations and instants.
- `tests/` — executable tests of the library.
- `app/` — the program: winit window, PTY session, OS queries, layout and
  scrolling in pixels.

Laws that span several functions are public proof functions named
`lemma_*` next to the functions they speak of.
