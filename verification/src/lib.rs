//! tern — the verified core of a terminal UI renderer: geometry, styles,
//! the cell grid and its minimal diff, the scene tree, text entry,
//! escape-sequence handling, terminal capability parsing, text measurement
//! for layout, syntax-highlight spans, and the per-cell render records and
//! handle table of the web binding.

pub mod rect;
pub mod color;
pub mod style;
pub mod text;
pub mod cell;
pub mod cursor;
pub mod buffer;
pub mod semantics;
pub mod scene;
pub mod wrap;
pub mod textarea;
pub mod backend;
pub mod probe;
pub mod highlight;
pub mod cell_flags;
pub mod wasm;
pub mod protocol;
pub mod event;
pub mod measure;
pub mod layout;
pub mod flex_style;
pub mod wasm_state;
