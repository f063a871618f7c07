//! The per-cell render records a browser painter reads: one fixed-size
//! [`TernWasmCell`] per cell (lead char, symbol-blob slice, encoded colors,
//! modifier flags) plus a UTF-8 symbol blob holding the full text of every
//! multi-character grapheme cluster.

use vstd::prelude::*;

use std::borrow::Cow;

use crate::buffer::{Buffer, BufferView};
use crate::cell::{Cell, CellView};
use crate::cell_flags;
use crate::color::Color;
use crate::style::Modifiers;
use crate::text::push_char;

verus! {

/// One rendered cell of a frame — the fixed-size record (6 × `u32`) the
/// painter reads.
#[derive(Debug, Clone, Copy, PartialEq, Eq, Structural)]
pub struct TernWasmCell {
    /// The lead character of the cluster, as a Unicode scalar value; `0` for
    /// a masked continuation cell.
    pub ch: u32,
    /// Byte offset of the cluster's full symbol text inside the symbol blob;
    /// `0` when the cell has no symbol.
    pub symbol_off: u32,
    /// Byte length of the symbol text; `0` when there is no symbol.
    pub symbol_len: u32,
    /// Foreground color, see [`encode_color`].
    pub fg: u32,
    /// Background color, see [`encode_color`].
    pub bg: u32,
    /// Text-modifier flags, see [`cell_flags`](crate::cell_flags).
    pub flags: u32,
}

/// The largest render accepted per axis.
pub const MAX_RENDER_AXIS: u32 = 4096;

// ---------------------------------------------------------------------------
// Colors
// ---------------------------------------------------------------------------

/// The 32-bit color encoding: the top byte is a tag — `0x00` default,
/// `0x01` palette index, `0x02` truecolor `rrggbb`.
pub open spec fn encode_color_spec(c: Color) -> u32 {
    match c {
        Color::Default => 0,
        Color::Indexed(n) => (0x0100_0000 + n) as u32,
        Color::Rgb(r, g, b) => (0x0200_0000 + r * 0x1_0000 + g * 0x100 + b) as u32,
    }
}

/// Encode a color into the 32-bit record format (see
/// [`encode_color_spec`]).
pub fn encode_color(color: Color) -> (e: u32)
    ensures
        e == encode_color_spec(color),
{
    match color {
        Color::Default => 0,
        Color::Indexed(n) => {
            let v = n as u32;
            assert(0x0100_0000u32 | v == 0x0100_0000u32 + v) by (bit_vector)
                requires
                    v < 256,
            ;
            0x0100_0000 | v
        },
        Color::Rgb(r, g, b) => {
            let (r32, g32, b32) = (r as u32, g as u32, b as u32);
            assert(0x0200_0000u32 | (r32 << 16) | (g32 << 8) | b32
                == 0x0200_0000u32 + r32 * 0x1_0000 + g32 * 0x100 + b32) by (bit_vector)
                requires
                    r32 < 256,
                    g32 < 256,
                    b32 < 256,
            ;
            0x0200_0000 | (r32 << 16) | (g32 << 8) | b32
        },
    }
}

/// The RGB channels of a truecolor encoding (tag `0x02`).
pub open spec fn decode_rgb_spec(e: u32) -> Option<(u8, u8, u8)> {
    if e / 0x0100_0000 == 2 {
        Some((((e / 0x1_0000) % 0x100) as u8, ((e / 0x100) % 0x100) as u8, (e % 0x100) as u8))
    } else {
        None
    }
}

/// Whether an encoded color is truecolor, and its channels.
pub fn decode_color_rgb(encoded: u32) -> (r: Option<(u8, u8, u8)>)
    ensures
        r == decode_rgb_spec(encoded),
{
    assert(encoded >> 24 == encoded / 0x0100_0000) by (bit_vector);
    if encoded >> 24 == 2 {
        assert((encoded >> 16) as u8 == ((encoded / 0x1_0000) % 0x100) as u8) by (bit_vector);
        assert((encoded >> 8) as u8 == ((encoded / 0x100) % 0x100) as u8) by (bit_vector);
        assert(encoded as u8 == (encoded % 0x100) as u8) by (bit_vector);
        Some(((encoded >> 16) as u8, (encoded >> 8) as u8, encoded as u8))
    } else {
        None
    }
}

/// Decoding a truecolor encoding gives its channels back; other colors do
/// not decode as truecolor.
pub proof fn color_encoding_round_trip(c: Color)
    ensures
        decode_rgb_spec(encode_color_spec(c)) == (match c {
            Color::Rgb(r, g, b) => Some((r, g, b)),
            _ => None,
        }),
{
    match c {
        Color::Rgb(r, g, b) => {
            let e = encode_color_spec(c);
            assert(e == 0x0200_0000 + r * 0x1_0000 + g * 0x100 + b);
            assert(e / 0x0100_0000 == 2);
            assert((e / 0x1_0000) % 0x100 == r);
            assert((e / 0x100) % 0x100 == g);
            assert(e % 0x100 == b);
        },
        Color::Indexed(n) => {
            assert(encode_color_spec(c) / 0x0100_0000 == 1);
        },
        Color::Default => {},
    }
}

// ---------------------------------------------------------------------------
// Flags
// ---------------------------------------------------------------------------

/// The record flag `fbit` when the modifier bit `mbit` is set.
pub open spec fn flag_if(m: u16, mbit: u16, fbit: u32) -> u32 {
    if m & mbit == mbit { fbit } else { 0 }
}

/// The record flags of a modifier set: bold, dim, italic, underline,
/// reversed, blink, hidden and strikethrough each map to its flag bit.
pub open spec fn flags_spec(m: u16) -> u32 {
    (flag_if(m, 1, 1) + flag_if(m, 2, 2) + flag_if(m, 4, 4) + flag_if(m, 8, 8)
        + flag_if(m, 32, 16) + flag_if(m, 16, 32) + flag_if(m, 64, 64) + flag_if(m, 128, 128)) as u32
}

/// The record flags of a modifier set (see [`flags_spec`]).
pub fn flags_of(modifiers: Modifiers) -> (f: u32)
    ensures
        f == flags_spec(modifiers@),
        f < 256,
{
    let mut flags: u32 = 0;
    if modifiers.contains(Modifiers::bold()) {
        flags = flags + cell_flags::BOLD;
    }
    if modifiers.contains(Modifiers::dim()) {
        flags = flags + cell_flags::DIM;
    }
    if modifiers.contains(Modifiers::italic()) {
        flags = flags + cell_flags::ITALIC;
    }
    if modifiers.contains(Modifiers::underline()) {
        flags = flags + cell_flags::UNDERLINE;
    }
    if modifiers.contains(Modifiers::reversed()) {
        flags = flags + cell_flags::REVERSED;
    }
    if modifiers.contains(Modifiers::blink()) {
        flags = flags + cell_flags::BLINK;
    }
    if modifiers.contains(Modifiers::hidden()) {
        flags = flags + cell_flags::HIDDEN;
    }
    if modifiers.contains(Modifiers::strikethrough()) {
        flags = flags + cell_flags::STRIKETHROUGH;
    }
    flags
}

// ---------------------------------------------------------------------------
// UTF-8
// ---------------------------------------------------------------------------

/// The UTF-8 encoding of one character.
pub open spec fn utf8_char(c: char) -> Seq<u8> {
    let u = c as u32 as int;
    if u < 0x80 {
        seq![u as u8]
    } else if u < 0x800 {
        seq![(0xC0 + u / 64) as u8, (0x80 + u % 64) as u8]
    } else if u < 0x1_0000 {
        seq![(0xE0 + u / 4096) as u8, (0x80 + (u / 64) % 64) as u8, (0x80 + u % 64) as u8]
    } else {
        seq![(0xF0 + u / 262144) as u8, (0x80 + (u / 4096) % 64) as u8, (0x80 + (u / 64) % 64) as u8,
            (0x80 + u % 64) as u8]
    }
}

/// The UTF-8 encoding of a text.
pub open spec fn utf8_encode(s: Seq<char>) -> Seq<u8>
    decreases s.len(),
{
    if s.len() == 0 { Seq::empty() } else { utf8_encode(s.drop_last()) + utf8_char(s.last()) }
}

/// Whether a byte is a UTF-8 continuation byte (`10xxxxxx`).
pub open spec fn is_continuation(x: u8) -> bool {
    0x80 <= x < 0xC0
}

proof fn lemma_utf8_char_shape(c: char)
    ensures
        1 <= utf8_char(c).len() <= 4,
        !is_continuation(utf8_char(c)[0]),
        forall|i: int| 1 <= i < utf8_char(c).len() ==> is_continuation(#[trigger] utf8_char(c)[i]),
{
    let u = c as u32 as int;
    assert(0 <= u <= 0x10FFFF);
    if u < 0x80 {
    } else if u < 0x800 {
        assert(u / 64 < 32) by (nonlinear_arith) requires u < 0x800, u >= 0;
        assert(0 <= u % 64 < 64) by (nonlinear_arith) requires u >= 0;
    } else if u < 0x1_0000 {
        assert(u / 4096 < 16) by (nonlinear_arith) requires u < 0x1_0000, u >= 0;
        assert(0 <= (u / 64) % 64 < 64) by (nonlinear_arith) requires u >= 0;
        assert(0 <= u % 64 < 64) by (nonlinear_arith) requires u >= 0;
    } else {
        assert(u / 262144 < 8) by (nonlinear_arith) requires u <= 0x10FFFF, u >= 0;
        assert(0 <= (u / 4096) % 64 < 64) by (nonlinear_arith) requires u >= 0;
        assert(0 <= (u / 64) % 64 < 64) by (nonlinear_arith) requires u >= 0;
        assert(0 <= u % 64 < 64) by (nonlinear_arith) requires u >= 0;
    }
}

proof fn lemma_utf8_char_injective(c: char, d: char)
    requires
        utf8_char(c) == utf8_char(d),
    ensures
        c == d,
{
    let u = c as u32 as int;
    let v = d as u32 as int;
    assert(0 <= u <= 0x10FFFF && 0 <= v <= 0x10FFFF);
    lemma_utf8_char_shape(c);
    lemma_utf8_char_shape(d);
    let e = utf8_char(c);
    assert(utf8_char(c).len() == utf8_char(d).len());
    if u < 0x80 {
        assert(v < 0x80);
        assert(e[0] == u && e[0] == v);
    } else if u < 0x800 {
        assert(0x80 <= v < 0x800);
        assert(u / 64 < 32 && v / 64 < 32) by (nonlinear_arith) requires u < 0x800, v < 0x800, u >= 0, v >= 0;
        assert(0 <= u % 64 < 64 && 0 <= v % 64 < 64) by (nonlinear_arith) requires u >= 0, v >= 0;
        assert(u / 64 == v / 64 && u % 64 == v % 64);
        assert(u == v) by (nonlinear_arith) requires u / 64 == v / 64, u % 64 == v % 64, u >= 0, v >= 0;
    } else if u < 0x1_0000 {
        assert(0x800 <= v < 0x1_0000);
        assert(u / 4096 < 16 && v / 4096 < 16) by (nonlinear_arith) requires u < 0x1_0000, v < 0x1_0000, u >= 0, v >= 0;
        assert(0 <= (u / 64) % 64 < 64 && 0 <= (v / 64) % 64 < 64) by (nonlinear_arith) requires u >= 0, v >= 0;
        assert(0 <= u % 64 < 64 && 0 <= v % 64 < 64) by (nonlinear_arith) requires u >= 0, v >= 0;
        assert(u / 4096 == v / 4096 && (u / 64) % 64 == (v / 64) % 64 && u % 64 == v % 64);
        assert(u == v) by (nonlinear_arith)
            requires u / 4096 == v / 4096, (u / 64) % 64 == (v / 64) % 64, u % 64 == v % 64, u >= 0, v >= 0;
    } else {
        assert(0x1_0000 <= v);
        assert(u / 262144 < 8 && v / 262144 < 8) by (nonlinear_arith) requires u <= 0x10FFFF, v <= 0x10FFFF, u >= 0, v >= 0;
        assert(0 <= (u / 4096) % 64 < 64 && 0 <= (v / 4096) % 64 < 64) by (nonlinear_arith) requires u >= 0, v >= 0;
        assert(0 <= (u / 64) % 64 < 64 && 0 <= (v / 64) % 64 < 64) by (nonlinear_arith) requires u >= 0, v >= 0;
        assert(0 <= u % 64 < 64 && 0 <= v % 64 < 64) by (nonlinear_arith) requires u >= 0, v >= 0;
        assert(u / 262144 == v / 262144 && (u / 4096) % 64 == (v / 4096) % 64 && (u / 64) % 64 == (v / 64) % 64
            && u % 64 == v % 64);
        assert(u == v) by (nonlinear_arith)
            requires u / 262144 == v / 262144, (u / 4096) % 64 == (v / 4096) % 64, (u / 64) % 64 == (v / 64) % 64,
                u % 64 == v % 64, u >= 0, v >= 0;
    }
    assert(c as u32 == d as u32);
}

/// UTF-8 encoding is one-to-one: two texts with the same encoding are the
/// same text.
pub proof fn utf8_encode_injective(s: Seq<char>, t: Seq<char>)
    requires
        utf8_encode(s) == utf8_encode(t),
    ensures
        s == t,
    decreases s.len() + t.len(),
{
    if s.len() == 0 && t.len() == 0 {
        assert(s =~= t);
    } else if s.len() == 0 {
        lemma_utf8_char_shape(t.last());
        assert(utf8_encode(t).len() >= 1);
    } else if t.len() == 0 {
        lemma_utf8_char_shape(s.last());
        assert(utf8_encode(s).len() >= 1);
    } else {
        let a = utf8_encode(s.drop_last());
        let b = utf8_encode(t.drop_last());
        let x = utf8_char(s.last());
        let y = utf8_char(t.last());
        let e = utf8_encode(s);
        lemma_utf8_char_shape(s.last());
        lemma_utf8_char_shape(t.last());
        assert(e == a + x && e == b + y);
        if x.len() < y.len() {
            let k = y.len() - x.len();
            assert(e[a.len() as int] == x[0]);
            assert(e[b.len() + k] == y[k]);
            assert(a.len() == b.len() + k);
            assert(is_continuation(y[k]));
            assert(false);
        } else if y.len() < x.len() {
            let k = x.len() - y.len();
            assert(e[b.len() as int] == y[0]);
            assert(e[a.len() + k] == x[k]);
            assert(b.len() == a.len() + k);
            assert(is_continuation(x[k]));
            assert(false);
        } else {
            assert(a.len() == b.len());
            assert(x =~= e.subrange(a.len() as int, e.len() as int));
            assert(y =~= e.subrange(b.len() as int, e.len() as int));
            assert(a =~= e.subrange(0, a.len() as int));
            assert(b =~= e.subrange(0, b.len() as int));
            lemma_utf8_char_injective(s.last(), t.last());
            utf8_encode_injective(s.drop_last(), t.drop_last());
            assert(s =~= s.drop_last().push(s.last()));
            assert(t =~= t.drop_last().push(t.last()));
        }
    }
}

fn push_utf8_char(out: &mut Vec<u8>, c: char)
    ensures
        final(out)@ == old(out)@ + utf8_char(c),
{
    let u = c as u32;
    let ghost start = out@;
    if u < 0x80 {
        out.push(u as u8);
    } else if u < 0x800 {
        out.push((0xC0 + u / 64) as u8);
        out.push((0x80 + u % 64) as u8);
    } else if u < 0x1_0000 {
        out.push((0xE0 + u / 4096) as u8);
        out.push((0x80 + (u / 64) % 64) as u8);
        out.push((0x80 + u % 64) as u8);
    } else {
        assert(u <= 0x10FFFF);
        out.push((0xF0 + u / 262144) as u8);
        out.push((0x80 + (u / 4096) % 64) as u8);
        out.push((0x80 + (u / 64) % 64) as u8);
        out.push((0x80 + u % 64) as u8);
    }
    assert(out@ =~= start + utf8_char(c));
}

/// Append the UTF-8 encoding of a text.
fn push_utf8(out: &mut Vec<u8>, s: &str)
    ensures
        final(out)@ == old(out)@ + utf8_encode(s@),
{
    let cs = crate::text::chars_of(s);
    let ghost start = out@;
    let mut i: usize = 0;
    while i < cs.len()
        invariant
            i <= cs@.len(),
            cs@ == s@,
            out@ == start + utf8_encode(cs@.take(i as int)),
        decreases cs@.len() - i,
    {
        assert(cs@.take(i + 1).drop_last() =~= cs@.take(i as int));
        push_utf8_char(out, cs[i]);
        i += 1;
        assert(out@ =~= start + utf8_encode(cs@.take(i as int)));
    }
    assert(cs@.take(cs@.len() as int) =~= cs@);
}

/// The text of a byte slice with invalid UTF-8 sequences replaced by
/// U+FFFD.
pub uninterp spec fn utf8_lossy(b: Seq<u8>) -> Seq<char>;

/// std's `String::from_utf8_lossy` of `blob[start..end]`: the text, with
/// invalid sequences replaced; valid UTF-8 decodes to the text it encodes.
#[verifier::external_body]
fn lossy_text<'b>(blob: &'b [u8], start: usize, end: usize) -> (r: Cow<'b, str>)
    requires
        start <= end <= blob@.len(),
    ensures
        r@ == utf8_lossy(blob@.subrange(start as int, end as int)),
        forall|s: Seq<char>| blob@.subrange(start as int, end as int) == #[trigger] utf8_encode(s) ==> r@ == s,
{
    String::from_utf8_lossy(&blob[start..end])
}

/// std's `char::from_u32`: the character with that scalar value, if it is
/// one (not a surrogate, at most U+10FFFF).
#[verifier::external_body]
fn char_from_u32(u: u32) -> (r: Option<char>)
    ensures
        r is Some <==> (u < 0xD800 || (0xE000 <= u <= 0x10FFFF)),
        r matches Some(c) ==> c as u32 == u,
{
    char::from_u32(u)
}

// ---------------------------------------------------------------------------
// Records
// ---------------------------------------------------------------------------

/// The blob slice a record's symbol names, clamped to the blob.
pub open spec fn record_slice(rec: TernWasmCell, blob: Seq<u8>) -> Seq<u8> {
    let start = if (rec.symbol_off as int) < blob.len() { rec.symbol_off as int } else { blob.len() as int };
    let end = if start + rec.symbol_len < blob.len() { start + rec.symbol_len } else { blob.len() as int };
    blob.subrange(start, end)
}

/// Whether `t` is the text a record displays over a symbol blob: the blob
/// slice when a symbol is set (clamped to the blob), nothing for `ch == 0`
/// or a value that is no Unicode scalar, else the single character `ch`.
pub open spec fn record_text(rec: TernWasmCell, blob: Seq<u8>, t: Seq<char>) -> bool {
    if rec.symbol_len > 0 {
        t == utf8_lossy(record_slice(rec, blob))
    } else if rec.ch == 0 || !(rec.ch < 0xD800 || (0xE000 <= rec.ch <= 0x10FFFF)) {
        t == Seq::<char>::empty()
    } else {
        t.len() == 1 && t[0] as u32 == rec.ch
    }
}

impl TernWasmCell {
    /// The blank, unstyled cell.
    pub fn blank() -> (c: Self)
        ensures
            c == (TernWasmCell { ch: 0, symbol_off: 0, symbol_len: 0, fg: 0, bg: 0, flags: 0 }),
    {
        TernWasmCell { ch: 0, symbol_off: 0, symbol_len: 0, fg: 0, bg: 0, flags: 0 }
    }

    /// The cell's display text (see [`record_text`]).
    pub fn text<'b>(&self, blob: &'b [u8]) -> (r: Cow<'b, str>)
        requires
            self.symbol_len > 0 ==> (if (self.symbol_off as int) < blob@.len() { self.symbol_off as int }
                else { blob@.len() as int }) + self.symbol_len <= usize::MAX,
        ensures
            record_text(*self, blob@, r@),
            forall|t: Seq<char>| self.symbol_len > 0 && record_slice(*self, blob@) == #[trigger] utf8_encode(t) ==> r@ == t,
    {
        if self.symbol_len > 0 {
            let n = blob.len();
            let off = self.symbol_off as usize;
            let start = if off < n { off } else { n };
            let wanted = start + self.symbol_len as usize;
            let end = if wanted < n { wanted } else { n };
            return lossy_text(blob, start, end);
        }
        let empty: &str = "";
        proof {
            reveal_strlit("");
            assert(empty@ =~= Seq::<char>::empty());
        }
        if self.ch == 0 {
            let r: Cow<'b, str> = Cow::Borrowed(empty);
            assert(r@ == empty@);
            return r;
        }
        match char_from_u32(self.ch) {
            Some(c) => {
                let mut s = String::new();
                push_char(&mut s, c);
                assert(s@ =~= seq![c]);
                let r: Cow<'b, str> = Cow::Owned(s);
                assert(r@ == s@);
                r
            },
            None => {
                let r: Cow<'b, str> = Cow::Borrowed(empty);
                assert(r@ == empty@);
                r
            },
        }
    }
}

/// The record and blob after filling: colors and flags from the style; a
/// masked cell has no glyph and the masked flag; a multi-char cluster's full
/// text is appended to the blob and referenced by offset and length.
pub open spec fn filled(rec: TernWasmCell, blob_old: Seq<u8>, blob: Seq<u8>, cell: CellView) -> bool {
    &&& rec.fg == encode_color_spec(cell.style.fg)
    &&& rec.bg == encode_color_spec(cell.style.bg)
    &&& if cell.width == 0 {
        &&& rec.ch == 0 && rec.symbol_off == 0 && rec.symbol_len == 0
        &&& rec.flags == flags_spec(cell.style.modifiers) + cell_flags::MASKED
        &&& blob == blob_old
    } else {
        &&& rec.ch == cell.ch as u32
        &&& rec.flags == flags_spec(cell.style.modifiers)
        &&& match cell.symbol {
            Some(sym) => {
                &&& rec.symbol_off == blob_old.len() as u32
                &&& rec.symbol_len == utf8_encode(sym).len() as u32
                &&& blob == blob_old + utf8_encode(sym)
            },
            None => rec.symbol_off == 0 && rec.symbol_len == 0 && blob == blob_old,
        }
    }
}

/// Fill one record from a cell (see [`filled`]).
pub fn fill_cell_record(rec: &mut TernWasmCell, blob: &mut Vec<u8>, cell: &Cell)
    ensures
        filled(*final(rec), old(blob)@, final(blob)@, cell@),
{
    rec.fg = encode_color(cell.style.fg);
    rec.bg = encode_color(cell.style.bg);
    rec.flags = flags_of(cell.style.modifiers);
    if cell.is_masked() {
        rec.ch = 0;
        rec.symbol_off = 0;
        rec.symbol_len = 0;
        rec.flags = rec.flags + cell_flags::MASKED;
        return;
    }
    rec.ch = cell.ch as u32;
    match &cell.symbol {
        Some(symbol) => {
            rec.symbol_off = blob.len() as u32;
            let before = blob.len();
            push_utf8(blob, symbol.as_str());
            let after = blob.len();
            rec.symbol_len = (after - before) as u32;
        },
        None => {
            rec.symbol_off = 0;
            rec.symbol_len = 0;
        },
    }
}

proof fn lemma_utf8_encode_nonempty(s: Seq<char>)
    ensures
        s.len() > 0 ==> utf8_encode(s).len() > 0,
        utf8_encode(s).len() >= s.len(),
    decreases s.len(),
{
    if s.len() > 0 {
        lemma_utf8_encode_nonempty(s.drop_last());
    }
}

// ---------------------------------------------------------------------------
// Frames
// ---------------------------------------------------------------------------

/// The record a cell fills and the blob after it (the function form of
/// [`filled`]).
pub open spec fn fill_spec(blob: Seq<u8>, cell: CellView) -> (TernWasmCell, Seq<u8>) {
    let fg = encode_color_spec(cell.style.fg);
    let bg = encode_color_spec(cell.style.bg);
    let flags = flags_spec(cell.style.modifiers);
    if cell.width == 0 {
        (TernWasmCell { ch: 0, symbol_off: 0, symbol_len: 0, fg, bg, flags: (flags + cell_flags::MASKED) as u32 }, blob)
    } else {
        match cell.symbol {
            Some(sym) => (
                TernWasmCell {
                    ch: cell.ch as u32,
                    symbol_off: blob.len() as u32,
                    symbol_len: utf8_encode(sym).len() as u32,
                    fg,
                    bg,
                    flags,
                },
                blob + utf8_encode(sym),
            ),
            None => (TernWasmCell { ch: cell.ch as u32, symbol_off: 0, symbol_len: 0, fg, bg, flags }, blob),
        }
    }
}

/// The records and blob of the first `k` cells, row-major, of a frame
/// `w` cells wide over the buffer `b`: a cell outside the buffer is blank
/// and adds nothing to the blob.
pub open spec fn frame_prefix(b: BufferView, w: nat, k: nat) -> (Seq<TernWasmCell>, Seq<u8>)
    decreases k,
{
    if k == 0 || w == 0 {
        (Seq::empty(), Seq::empty())
    } else {
        let (recs, blob) = frame_prefix(b, w, (k - 1) as nat);
        let x = (k - 1) % (w as int);
        let y = (k - 1) / (w as int);
        if b.in_bounds(x, y) {
            let (r, blob2) = fill_spec(blob, b.at(x, y));
            (recs.push(r), blob2)
        } else {
            (recs.push(TernWasmCell { ch: 0, symbol_off: 0, symbol_len: 0, fg: 0, bg: 0, flags: 0 }), blob)
        }
    }
}

proof fn lemma_filled_is_fill_spec(rec: TernWasmCell, blob_old: Seq<u8>, blob: Seq<u8>, cell: CellView)
    requires
        filled(rec, blob_old, blob, cell),
    ensures
        (rec, blob) == fill_spec(blob_old, cell),
{
}

/// The cell records and symbol blob of a `width` × `height` frame painted
/// into `buffer`, row-major (record `y * width + x`); every cell has a
/// record, and a cell outside the buffer is blank (see [`frame_prefix`]).
pub fn frame_records(buffer: &Buffer, width: u32, height: u32) -> (r: (Vec<TernWasmCell>, Vec<u8>))
    requires
        buffer.wf(),
        width <= MAX_RENDER_AXIS,
        height <= MAX_RENDER_AXIS,
    ensures
        r.0@.len() == width * height,
        (r.0@, r.1@) == frame_prefix(buffer@, width as nat, (width * height) as nat),
{
    assert(width * height <= 4096 * 4096) by (nonlinear_arith)
        requires
            width <= 4096,
            height <= 4096,
    ;
    let count: usize = (width as usize) * (height as usize);
    let mut cells: Vec<TernWasmCell> = Vec::new();
    let mut blob: Vec<u8> = Vec::new();
    if width == 0 {
        assert(width * height == 0);
        return (cells, blob);
    }
    let w = width as usize;
    let mut k: usize = 0;
    while k < count
        invariant
            buffer.wf(),
            w == width,
            w > 0,
            width <= MAX_RENDER_AXIS,
            height <= MAX_RENDER_AXIS,
            count == width * height,
            k <= count,
            cells@.len() == k,
            (cells@, blob@) == frame_prefix(buffer@, width as nat, k as nat),
        decreases count - k,
    {
        let x = k % w;
        let y = k / w;
        assert(y <= height) by (nonlinear_arith)
            requires
                y == k / w,
                k < count,
                count == w * height,
                w > 0,
        ;
        let mut rec = TernWasmCell::blank();
        match buffer.cell(x as u16, y as u16) {
            Some(cell) => {
                let ghost b0 = blob@;
                fill_cell_record(&mut rec, &mut blob, cell);
                proof {
                    lemma_filled_is_fill_spec(rec, b0, blob@, cell@);
                }
            },
            None => {},
        }
        cells.push(rec);
        k += 1;
    }
    (cells, blob)
}

/// A filled record names exactly its cluster's UTF-8 text in the blob (so
/// [`TernWasmCell::text`] reads the symbol back), or carries the lead
/// character itself — for a blob within the record's 32-bit offsets.
pub proof fn filled_record_names_its_text(rec: TernWasmCell, blob_old: Seq<u8>, blob: Seq<u8>, cell: CellView)
    requires
        filled(rec, blob_old, blob, cell),
        cell.width != 0,
        blob.len() <= u32::MAX,
        cell.symbol matches Some(sym) ==> sym.len() > 0,
    ensures
        match cell.symbol {
            Some(sym) => rec.symbol_len > 0 && record_slice(rec, blob) == utf8_encode(sym),
            None => rec.symbol_len == 0 && rec.ch == cell.ch as u32,
        },
{
    match cell.symbol {
        Some(sym) => {
            lemma_utf8_encode_nonempty(sym);
            let e = utf8_encode(sym);
            assert(record_slice(rec, blob) =~= e);
        },
        None => {},
    }
}

} // verus!
