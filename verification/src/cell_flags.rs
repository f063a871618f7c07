//! Cell flag bits (the `flags` field of a
//! [`TernWasmCell`](crate::wasm::TernWasmCell)).

use vstd::prelude::*;

verus! {

/// Bold text.
pub const BOLD: u32 = 1;
/// Dim text.
pub const DIM: u32 = 2;
/// Italic text.
pub const ITALIC: u32 = 4;
/// Underlined text.
pub const UNDERLINE: u32 = 8;
/// Reversed foreground/background.
pub const REVERSED: u32 = 16;
/// Blinking text.
pub const BLINK: u32 = 32;
/// Hidden text.
pub const HIDDEN: u32 = 64;
/// Struck-through text.
pub const STRIKETHROUGH: u32 = 128;
/// Zero-width continuation cell (the right half of a 2-column glyph); the
/// painter skips it — its lead cell already drew the whole glyph.
pub const MASKED: u32 = 256;

} // verus!
