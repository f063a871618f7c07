# tern

The core of a terminal UI renderer, written in Verus: the library's
functions carry `requires` / `ensures` contracts and Verus proves the code
against them. Most contracts pin the result down exactly; where a result
comes from an outside crate, the contract says what is known of that call
and no more.

- `src/` — the verified library: geometry (`rect`), colors and styles, the
  cell grid and its minimal diff (`cell`, `buffer`), the scene tree with its
  dirty tracking and semantics store (`scene`, `semantics`), soft wrap and the
  multi-line text field (`wrap`, `textarea`), the escape text of every
  terminal command and the batched frame flush (`backend`), terminal
  capability replies and the probe's parser (`probe`), input normalization
  (`event`), syntax-highlight spans (`highlight`), the flex style of a
  node's layout props (`flex_style`), text measurement for layout and the
  incremental layout pass's decisions (`measure`), and the web binding's
  cell records, style protocol and handle table (`wasm`, `protocol`, `wasm_state`). Calls into outside crates
  (unicode tables, grapheme segmentation, crossterm's command encodings,
  base64, tree-sitter) go through small trusted wrappers. Their contracts
  are believed, not proved. crossterm's escape texts and base64 are stated
  outright (a color command may come with or without its parameters, as
  crossterm's `NO_COLOR` setting decides). The unicode width tables, the
  grapheme boundaries and the captures of a fresh tree-sitter parse are
  named as uninterpreted functions of their inputs, and the library's
  contracts are stated over those names; of an incremental re-parse only
  what holds of every outcome is stated.
- `app/` — the I/O around the library: stdout and raw mode, input polling
  and the event loop, the capability probe on the real terminal, JSON
  parsing of the props protocol, the C ABI of the web binding, and the flex
  layout engine over taffy (its geometry is floating point).
- `tests/` — tests of the library on concrete values.
