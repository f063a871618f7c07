//! The escape-sequence side of the terminal backend: everything a frame
//! flush, a caret update or a startup batch writes, built as text that the
//! caller sends to the terminal.
//!
//! Consecutive updates with the same style on the same row at adjacent
//! columns are batched into runs: one cursor move, one unconditional SGR
//! reset plus the run's exact style applied once, and the run's characters
//! in a single print. Within one flush, a run whose style equals the
//! previously queued run's skips the redundant SGR reset/re-apply and emits
//! only its move and print. A run whose style carries a hyperlink wraps its
//! print in OSC 8 open/close sequences.
//!
//! An empty diff short-circuits the flush: when a frame paints nothing and
//! the caret would be parked where the previous flush left it, nothing is
//! written; when only the park position moved, just the move is written.
//! The caret-aware flush moves the terminal cursor to the frame's cursor,
//! applies its shape / blinking (only for a non-default caret) and shows or
//! hides it.
//!
//! The commands themselves come from crossterm, whose color commands honour
//! the `NO_COLOR` convention: when it is set they carry no color parameters.

use vstd::prelude::*;

use base64::Engine;
use crossterm::Command;
use crossterm::cursor::{Hide, MoveTo, SetCursorStyle, Show};
use crossterm::event::{
    DisableBracketedPaste, DisableFocusChange, DisableMouseCapture, EnableBracketedPaste,
    EnableFocusChange, EnableMouseCapture,
};
use crossterm::style::{
    Attribute, Color as CtColor, Print, ResetColor, SetAttribute, SetBackgroundColor, SetForegroundColor,
};
use crossterm::terminal::{EnterAlternateScreen, SetTitle};

use crate::cell::{CellUpdate, CellUpdateView};
use crate::color::Color;
use crate::cursor::{Cursor, CursorShape};
use crate::style::{Modifiers, Style, StyleView, UnderlineStyle};
use crate::text::{push_char, str_eq};
use crate::wasm::utf8_encode;

verus! {

broadcast use vstd::string::group_string_axioms;

// ---------------------------------------------------------------------------
// Decimal numbers
// ---------------------------------------------------------------------------

/// The ASCII digit for `d` (0-9).
pub open spec fn digit_char(d: int) -> char {
    if d == 0 { '0' } else if d == 1 { '1' } else if d == 2 { '2' } else if d == 3 { '3' }
    else if d == 4 { '4' } else if d == 5 { '5' } else if d == 6 { '6' } else if d == 7 { '7' }
    else if d == 8 { '8' } else { '9' }
}

/// The decimal representation of `n`, without leading zeros.
pub open spec fn dec(n: nat) -> Seq<char>
    decreases n,
{
    if n < 10 {
        seq![digit_char(n as int)]
    } else {
        dec(n / 10).push(digit_char((n % 10) as int))
    }
}

fn digit(d: u32) -> (c: char)
    requires
        d < 10,
    ensures
        c == digit_char(d as int),
{
    if d == 0 { '0' } else if d == 1 { '1' } else if d == 2 { '2' } else if d == 3 { '3' }
    else if d == 4 { '4' } else if d == 5 { '5' } else if d == 6 { '6' } else if d == 7 { '7' }
    else if d == 8 { '8' } else { '9' }
}

/// Append the decimal representation of `n`.
pub fn push_dec(out: &mut String, n: u32)
    ensures
        final(out)@ == old(out)@ + dec(n as nat),
    decreases n,
{
    if n >= 10 {
        push_dec(out, n / 10);
    }
    push_char(out, digit(n % 10));
    assert(final(out)@ =~= old(out)@ + dec(n as nat));
}

// ---------------------------------------------------------------------------
// The crossterm commands, as text
// ---------------------------------------------------------------------------

/// The cursor-move sequence to column `x`, row `y` (0-based; the sequence is
/// 1-based): `ESC [ y+1 ; x+1 H`.
pub open spec fn move_to_text(x: u16, y: u16) -> Seq<char> {
    "\x1b["@ + dec((y + 1) as nat) + ";"@ + dec((x + 1) as nat) + "H"@
}

/// Write crossterm's `MoveTo(x, y)`: `ESC [ y+1 ; x+1 H`. crossterm adds one
/// to each coordinate in `u16`, so the last coordinate value is left out.
#[verifier::external_body]
fn write_move_to(out: &mut String, x: u16, y: u16)
    requires
        x < u16::MAX,
        y < u16::MAX,
    ensures
        final(out)@ == old(out)@ + move_to_text(x, y),
{
    let _ = MoveTo(x, y).write_ansi(out);
}

/// Write crossterm's `Hide`: `ESC [ ? 25 l`.
#[verifier::external_body]
fn write_hide(out: &mut String)
    ensures
        final(out)@ == old(out)@ + "\x1b[?25l"@,
{
    let _ = Hide.write_ansi(out);
}

/// Write crossterm's `Show`: `ESC [ ? 25 h`.
#[verifier::external_body]
fn write_show(out: &mut String)
    ensures
        final(out)@ == old(out)@ + "\x1b[?25h"@,
{
    let _ = Show.write_ansi(out);
}

/// Write crossterm's `ResetColor`: `ESC [ 0 m`.
#[verifier::external_body]
fn write_reset_color(out: &mut String)
    ensures
        final(out)@ == old(out)@ + "\x1b[0m"@,
{
    let _ = ResetColor.write_ansi(out);
}

/// Write crossterm's `Print(text)`: the text itself.
#[verifier::external_body]
fn write_print(out: &mut String, text: &str)
    ensures
        final(out)@ == old(out)@ + text@,
{
    let _ = Print(text).write_ansi(out);
}

/// Write crossterm's `EnterAlternateScreen`: `ESC [ ? 1049 h`.
#[verifier::external_body]
fn write_enter_alternate_screen(out: &mut String)
    ensures
        final(out)@ == old(out)@ + "\x1b[?1049h"@,
{
    let _ = EnterAlternateScreen.write_ansi(out);
}

/// Write crossterm's `SetTitle(title)`: `ESC ] 0 ; title BEL`.
#[verifier::external_body]
fn write_set_title(out: &mut String, title: &str)
    ensures
        final(out)@ == old(out)@ + "\x1b]0;"@ + title@ + "\x07"@,
{
    let _ = SetTitle(title).write_ansi(out);
}

/// Write crossterm's `EnableMouseCapture`: the normal, button-event,
/// any-event, rxvt and SGR mouse tracking modes on.
#[verifier::external_body]
fn write_enable_mouse_capture(out: &mut String)
    ensures
        final(out)@ == old(out)@ + "\x1b[?1000h\x1b[?1002h\x1b[?1003h\x1b[?1015h\x1b[?1006h"@,
{
    let _ = EnableMouseCapture.write_ansi(out);
}

/// Write crossterm's `DisableMouseCapture`: the mouse modes off in reverse
/// order.
#[verifier::external_body]
fn write_disable_mouse_capture(out: &mut String)
    ensures
        final(out)@ == old(out)@ + "\x1b[?1006l\x1b[?1015l\x1b[?1003l\x1b[?1002l\x1b[?1000l"@,
{
    let _ = DisableMouseCapture.write_ansi(out);
}

/// Write crossterm's `EnableFocusChange`: `ESC [ ? 1004 h`.
#[verifier::external_body]
fn write_enable_focus_change(out: &mut String)
    ensures
        final(out)@ == old(out)@ + "\x1b[?1004h"@,
{
    let _ = EnableFocusChange.write_ansi(out);
}

/// Write crossterm's `DisableFocusChange`: `ESC [ ? 1004 l`.
#[verifier::external_body]
fn write_disable_focus_change(out: &mut String)
    ensures
        final(out)@ == old(out)@ + "\x1b[?1004l"@,
{
    let _ = DisableFocusChange.write_ansi(out);
}

/// Write crossterm's `EnableBracketedPaste`: `ESC [ ? 2004 h`.
#[verifier::external_body]
fn write_enable_bracketed_paste(out: &mut String)
    ensures
        final(out)@ == old(out)@ + "\x1b[?2004h"@,
{
    let _ = EnableBracketedPaste.write_ansi(out);
}

/// Write crossterm's `DisableBracketedPaste`: `ESC [ ? 2004 l`.
#[verifier::external_body]
fn write_disable_bracketed_paste(out: &mut String)
    ensures
        final(out)@ == old(out)@ + "\x1b[?2004l"@,
{
    let _ = DisableBracketedPaste.write_ansi(out);
}

/// The SGR attributes the backend sets.
#[derive(Debug, Clone, Copy, PartialEq, Eq, Structural)]
pub enum Sgr {
    Reset,
    Bold,
    Dim,
    Italic,
    Underlined,
    SlowBlink,
    Reverse,
    Hidden,
    CrossedOut,
}

/// The SGR parameter of an attribute.
pub open spec fn sgr_code(a: Sgr) -> Seq<char> {
    match a {
        Sgr::Reset => "0"@,
        Sgr::Bold => "1"@,
        Sgr::Dim => "2"@,
        Sgr::Italic => "3"@,
        Sgr::Underlined => "4"@,
        Sgr::SlowBlink => "5"@,
        Sgr::Reverse => "7"@,
        Sgr::Hidden => "8"@,
        Sgr::CrossedOut => "9"@,
    }
}

/// The sequence that sets an SGR attribute: `ESC [ code m`.
pub open spec fn sgr_text(a: Sgr) -> Seq<char> {
    "\x1b["@ + sgr_code(a) + "m"@
}

/// Write crossterm's `SetAttribute` for the attribute: `ESC [ code m`.
#[verifier::external_body]
fn write_set_attribute(out: &mut String, a: Sgr)
    ensures
        final(out)@ == old(out)@ + sgr_text(a),
{
    let attr = match a {
        Sgr::Reset => Attribute::Reset,
        Sgr::Bold => Attribute::Bold,
        Sgr::Dim => Attribute::Dim,
        Sgr::Italic => Attribute::Italic,
        Sgr::Underlined => Attribute::Underlined,
        Sgr::SlowBlink => Attribute::SlowBlink,
        Sgr::Reverse => Attribute::Reverse,
        Sgr::Hidden => Attribute::Hidden,
        Sgr::CrossedOut => Attribute::CrossedOut,
    };
    let _ = SetAttribute(attr).write_ansi(out);
}

/// The DECSCUSR caret styles.
#[derive(Debug, Clone, Copy, PartialEq, Eq, Structural)]
pub enum CaretStyle {
    BlinkingBlock,
    SteadyBlock,
    BlinkingUnderScore,
    SteadyUnderScore,
    BlinkingBar,
    SteadyBar,
}

/// The DECSCUSR sequence of a caret style: `ESC [ n SP q`.
pub open spec fn caret_style_text(s: CaretStyle) -> Seq<char> {
    match s {
        CaretStyle::BlinkingBlock => "\x1b[1 q"@,
        CaretStyle::SteadyBlock => "\x1b[2 q"@,
        CaretStyle::BlinkingUnderScore => "\x1b[3 q"@,
        CaretStyle::SteadyUnderScore => "\x1b[4 q"@,
        CaretStyle::BlinkingBar => "\x1b[5 q"@,
        CaretStyle::SteadyBar => "\x1b[6 q"@,
    }
}

/// Write crossterm's `SetCursorStyle` for the caret style.
#[verifier::external_body]
fn write_cursor_style(out: &mut String, s: CaretStyle)
    ensures
        final(out)@ == old(out)@ + caret_style_text(s),
{
    let style = match s {
        CaretStyle::BlinkingBlock => SetCursorStyle::BlinkingBlock,
        CaretStyle::SteadyBlock => SetCursorStyle::SteadyBlock,
        CaretStyle::BlinkingUnderScore => SetCursorStyle::BlinkingUnderScore,
        CaretStyle::SteadyUnderScore => SetCursorStyle::SteadyUnderScore,
        CaretStyle::BlinkingBar => SetCursorStyle::BlinkingBar,
        CaretStyle::SteadyBar => SetCursorStyle::SteadyBar,
    };
    let _ = style.write_ansi(out);
}

/// The base64 digit of a 6-bit value: `A`-`Z`, `a`-`z`, `0`-`9`, `+`, `/`.
pub open spec fn b64_digit(v: int) -> char {
    if v < 26 {
        (65 + v) as char
    } else if v < 52 {
        (97 + v - 26) as char
    } else if v < 62 {
        (48 + v - 52) as char
    } else if v == 62 {
        '+'
    } else {
        '/'
    }
}

/// The standard (RFC 4648, padded) base64 encoding of bytes: each group of
/// three bytes, read as a 24-bit number, gives four digits; a last group of
/// one or two bytes is zero-filled and its missing digits become `=`.
pub open spec fn base64_bytes(b: Seq<u8>) -> Seq<char>
    decreases b.len(),
{
    if b.len() == 0 {
        Seq::empty()
    } else {
        let b1: int = if b.len() > 1 { b[1] as int } else { 0 };
        let b2: int = if b.len() > 2 { b[2] as int } else { 0 };
        let n = b[0] as int * 65536 + b1 * 256 + b2;
        let group = seq![
            b64_digit(n / 262144),
            b64_digit((n / 4096) % 64),
            if b.len() > 1 { b64_digit((n / 64) % 64) } else { '=' },
            if b.len() > 2 { b64_digit(n % 64) } else { '=' },
        ];
        if b.len() <= 3 { group } else { group + base64_bytes(b.skip(3)) }
    }
}

/// The standard base64 encoding of the UTF-8 bytes of a text.
pub open spec fn base64_standard(text: Seq<char>) -> Seq<char> {
    base64_bytes(utf8_encode(text))
}

/// base64's `STANDARD.encode` of the text's UTF-8 bytes: the padded
/// RFC 4648 alphabet (see [`base64_bytes`]).
#[verifier::external_body]
fn encode_base64(text: &str) -> (s: String)
    ensures
        s@ == base64_standard(text@),
{
    base64::engine::general_purpose::STANDARD.encode(text.as_bytes())
}

// ---------------------------------------------------------------------------
// Colors
// ---------------------------------------------------------------------------

/// The channel value of step `s` of the xterm 6x6x6 color cube.
pub open spec fn cube_step(s: int) -> int {
    if s == 0 { 0 } else if s == 1 { 95 } else if s == 2 { 135 } else if s == 3 { 175 }
    else if s == 4 { 215 } else { 255 }
}

/// The RGB value of xterm palette index `i` (16..=255): the color cube
/// (16..=231, `16 + 36r + 6g + b`) and the grayscale ramp (232..=255,
/// `8 + 10k`).
pub open spec fn palette_rgb(i: int) -> (int, int, int) {
    if i < 232 {
        let k = i - 16;
        (cube_step(k / 36), cube_step((k / 6) % 6), cube_step(k % 6))
    } else {
        let v = 8 + 10 * (i - 232);
        (v, v, v)
    }
}

/// The squared RGB distance between a color and palette index `i`.
pub open spec fn palette_dist(r: u8, g: u8, b: u8, i: int) -> int {
    let (pr, pg, pb) = palette_rgb(i);
    (r - pr) * (r - pr) + (g - pg) * (g - pg) + (b - pb) * (b - pb)
}

/// Whether `i` is the first palette index (16..=255) at the least squared
/// distance from the color.
pub open spec fn nearest_palette(r: u8, g: u8, b: u8, i: int) -> bool {
    &&& 16 <= i <= 255
    &&& forall|j: int| 16 <= j <= 255 ==> palette_dist(r, g, b, i) <= #[trigger] palette_dist(r, g, b, j)
    &&& forall|j: int| 16 <= j < i ==> palette_dist(r, g, b, i) < #[trigger] palette_dist(r, g, b, j)
}

/// The nearest xterm 256-color palette index of an RGB color.
pub open spec fn ansi256_spec(r: u8, g: u8, b: u8) -> u8 {
    choose|i: u8| nearest_palette(r, g, b, i as int)
}

/// There is one nearest palette index.
pub proof fn nearest_palette_unique(r: u8, g: u8, b: u8, i: int, j: int)
    requires
        nearest_palette(r, g, b, i),
        nearest_palette(r, g, b, j),
    ensures
        i == j,
{
    if i < j {
        assert(palette_dist(r, g, b, j) < palette_dist(r, g, b, i));
    } else if j < i {
        assert(palette_dist(r, g, b, i) < palette_dist(r, g, b, j));
    }
}

/// The squared RGB distance between two colors.
fn sq_dist(r1: u8, g1: u8, b1: u8, r2: u8, g2: u8, b2: u8) -> (d: u32)
    ensures
        d == (r1 - r2) * (r1 - r2) + (g1 - g2) * (g1 - g2) + (b1 - b2) * (b1 - b2),
{
    let dr = r1 as i32 - r2 as i32;
    let dg = g1 as i32 - g2 as i32;
    let db = b1 as i32 - b2 as i32;
    assert(dr * dr <= 65025 && dg * dg <= 65025 && db * db <= 65025) by (nonlinear_arith)
        requires
            -255 <= dr <= 255,
            -255 <= dg <= 255,
            -255 <= db <= 255,
    ;
    assert(dr * dr >= 0 && dg * dg >= 0 && db * db >= 0) by (nonlinear_arith);
    (dr * dr + dg * dg + db * db) as u32
}

fn cube_value(s: u32) -> (v: u8)
    requires
        s < 6,
    ensures
        v == cube_step(s as int),
{
    if s == 0 { 0 } else if s == 1 { 95 } else if s == 2 { 135 } else if s == 3 { 175 }
    else if s == 4 { 215 } else { 255 }
}

/// Quantize an RGB triple to the nearest xterm 256-color palette index: the
/// 6x6x6 color cube (indices 16..=231, `16 + 36r + 6g + b` over the levels
/// 0/95/135/175/215/255) plus the grayscale ramp (indices 232..=255,
/// `8 + 10i`). Selection minimizes squared RGB distance across the whole
/// palette; of equally near entries the lowest index wins.
pub fn rgb_to_ansi256(r: u8, g: u8, b: u8) -> (idx: u8)
    ensures
        nearest_palette(r, g, b, idx as int),
        idx == ansi256_spec(r, g, b),
{
    let mut best: u32 = 16;
    let mut best_dist: u32 = 0;
    let mut i: u32 = 16;
    while i < 256
        invariant
            16 <= i <= 256,
            i > 16 ==> 16 <= best < i,
            i > 16 ==> best_dist == palette_dist(r, g, b, best as int),
            i > 16 ==> forall|j: int| 16 <= j < i ==> palette_dist(r, g, b, best as int) <= #[trigger] palette_dist(r, g, b, j),
            i > 16 ==> forall|j: int| 16 <= j < best ==> palette_dist(r, g, b, best as int) < #[trigger] palette_dist(r, g, b, j),
        decreases 256 - i,
    {
        let (pr, pg, pb): (u8, u8, u8) = if i < 232 {
            let k = i - 16;
            (cube_value(k / 36), cube_value((k / 6) % 6), cube_value(k % 6))
        } else {
            let v: u8 = (8 + 10 * (i - 232)) as u8;
            (v, v, v)
        };
        let d = sq_dist(r, g, b, pr, pg, pb);
        assert(d == palette_dist(r, g, b, i as int));
        if i == 16 || d < best_dist {
            best = i;
            best_dist = d;
        }
        i += 1;
    }
    let idx = best as u8;
    assert(nearest_palette(r, g, b, idx as int));
    proof {
        let c = choose|k: u8| nearest_palette(r, g, b, k as int);
        nearest_palette_unique(r, g, b, c as int, idx as int);
    }
    idx
}

// ---------------------------------------------------------------------------
// Capabilities
// ---------------------------------------------------------------------------

/// The terminal's color capabilities.
#[derive(Debug, Clone, Copy, PartialEq, Eq, Structural)]
pub struct BackendCapabilities {
    /// Whether 24-bit (16M) RGB truecolor is supported.
    pub truecolor: bool,
    /// The size of the terminal's color palette: 16_777_216 with truecolor,
    /// 256 for a 256-color palette, 16 for basic ANSI.
    pub colors: u32,
    /// Whether kitty's extended underline styles are supported (`\x1b[4:Nm`
    /// style variants and `\x1b[58;...m` colored underlines).
    pub underline_styles: bool,
}

/// The color levels a terminal reports.
#[derive(Debug, Clone, Copy, PartialEq, Eq, Structural)]
pub struct ColorSupport {
    /// Basic 16-color ANSI support.
    pub has_basic: bool,
    /// 256-color palette support.
    pub has_256: bool,
    /// 24-bit truecolor support.
    pub has_16m: bool,
}

/// The capabilities for a reported color level. Never reports "no color
/// support": an inconclusive report (`None`, or no level set) defaults to
/// truecolor — the SGR sequences are harmless on terminals that ignore them.
pub fn capabilities_for(level: Option<ColorSupport>, underline_styles: bool) -> (c: BackendCapabilities)
    ensures
        c.underline_styles == underline_styles,
        (c.truecolor, c.colors) == (match level {
            Some(l) => if l.has_16m { (true, 16_777_216u32) } else if l.has_256 { (false, 256u32) }
                else if l.has_basic { (false, 16u32) } else { (true, 16_777_216u32) },
            None => (true, 16_777_216u32),
        }),
{
    match level {
        Some(l) if l.has_16m => BackendCapabilities { truecolor: true, colors: 16_777_216, underline_styles },
        Some(l) if l.has_256 => BackendCapabilities { truecolor: false, colors: 256, underline_styles },
        Some(l) if l.has_basic => BackendCapabilities { truecolor: false, colors: 16, underline_styles },
        _ => BackendCapabilities { truecolor: true, colors: 16_777_216, underline_styles },
    }
}

/// Whether `s` holds `pat` as a contiguous piece.
pub open spec fn contains_seq(s: Seq<char>, pat: Seq<char>) -> bool {
    exists|i: int| 0 <= i && i + pat.len() <= s.len() && #[trigger] s.subrange(i, i + pat.len()) == pat
}

/// Whether `s` holds `pat` as a contiguous piece.
pub fn contains_str(s: &str, pat: &str) -> (b: bool)
    ensures
        b == contains_seq(s@, pat@),
{
    let cs = crate::text::chars_of(s);
    let ps = crate::text::chars_of(pat);
    if ps.len() > cs.len() {
        return false;
    }
    let n = cs.len();
    let mut i: usize = 0;
    while i <= cs.len() - ps.len()
        invariant
            n == cs@.len(),
            ps@.len() <= cs@.len(),
            cs@ == s@,
            ps@ == pat@,
            i <= cs@.len() - ps@.len() + 1,
            forall|j: int| 0 <= j < i ==> #[trigger] cs@.subrange(j, j + ps@.len()) != ps@,
        decreases cs@.len() - ps@.len() + 1 - i,
    {
        let mut k: usize = 0;
        let mut same = true;
        while k < ps.len()
            invariant
                k <= ps@.len(),
                n == cs@.len(),
                i + ps@.len() <= cs@.len(),
                same == (forall|m: int| 0 <= m < k ==> cs@[i + m] == ps@[m]),
            decreases ps@.len() - k,
        {
            if cs[i + k] != ps[k] {
                same = false;
            }
            k += 1;
        }
        if same {
            assert(cs@.subrange(i as int, i + ps@.len()) =~= ps@);
            return true;
        }
        assert(cs@.subrange(i as int, i + ps@.len()) != ps@) by {
            let m = choose|m: int| 0 <= m < ps@.len() && cs@[i + m] != ps@[m];
            assert(cs@.subrange(i as int, i + ps@.len())[m] != ps@[m]);
        }
        i += 1;
    }
    false
}

/// Whether a terminal supports kitty's extended underline styles, from its
/// `TERM_PROGRAM` and `TERM`: a known-supporting program (kitty, WezTerm,
/// iTerm.app, ghostty) or a `TERM` containing "kitty". Unknown terminals
/// take the plain-underline fallback.
pub fn underline_styles_for(term_program: &str, term: &str) -> (b: bool)
    ensures
        b == (term_program@ == "kitty"@ || term_program@ == "WezTerm"@ || term_program@ == "iTerm.app"@
            || term_program@ == "ghostty"@ || contains_seq(term@, "kitty"@)),
{
    if str_eq(term_program, "kitty") || str_eq(term_program, "WezTerm") || str_eq(term_program, "iTerm.app")
        || str_eq(term_program, "ghostty") {
        return true;
    }
    contains_str(term, "kitty")
}

// ---------------------------------------------------------------------------
// Style sequences
// ---------------------------------------------------------------------------

/// The SGR parameters of a palette index or an RGB color (after the `38;` /
/// `48;` selector).
pub open spec fn ansi_value_params(n: u8) -> Seq<char> {
    "5;"@ + dec(n as nat)
}

/// The SGR parameters of a truecolor value.
pub open spec fn rgb_params(r: u8, g: u8, b: u8) -> Seq<char> {
    "2;"@ + dec(r as nat) + ";"@ + dec(g as nat) + ";"@ + dec(b as nat)
}

/// A foreground (`38;`) or background (`48;`) color command; with colors
/// turned off it carries no parameters.
pub open spec fn color_command(fg: bool, params: Seq<char>, on: bool) -> Seq<char> {
    "\x1b["@ + (if on { (if fg { "38;"@ } else { "48;"@ }) + params } else { Seq::empty() }) + "m"@
}

/// The color command for a color: nothing for `Default`; a palette color
/// as is; an RGB color as is with truecolor, quantized to the nearest
/// palette index on a 256-color palette, and dropped on a smaller palette.
pub open spec fn color_text(color: Color, fg: bool, caps: BackendCapabilities, on: bool) -> Seq<char> {
    match color {
        Color::Default => Seq::empty(),
        Color::Indexed(i) => color_command(fg, ansi_value_params(i), on),
        Color::Rgb(r, g, b) => if caps.truecolor {
            color_command(fg, rgb_params(r, g, b), on)
        } else if caps.colors >= 256 {
            color_command(fg, ansi_value_params(ansi256_spec(r, g, b)), on)
        } else {
            Seq::empty()
        },
    }
}

/// The color a crossterm color command carries: a palette index or an RGB
/// value.
#[derive(Debug, Clone, Copy, PartialEq, Eq, Structural)]
pub enum CommandColor {
    Ansi(u8),
    Rgb(u8, u8, u8),
}

/// The SGR parameters of a command color.
pub open spec fn command_params(c: CommandColor) -> Seq<char> {
    match c {
        CommandColor::Ansi(n) => ansi_value_params(n),
        CommandColor::Rgb(r, g, b) => rgb_params(r, g, b),
    }
}

/// crossterm's `SetForegroundColor` command text: `ESC [ 38; <params> m`,
/// or `ESC [ m` when crossterm's color output is turned off (`NO_COLOR`,
/// read from the environment once per process). Which of the two comes
/// depends on the environment and is not stated.
#[verifier::external_body]
fn write_set_foreground_color(out: &mut String, c: CommandColor)
    ensures
        final(out)@ == old(out)@ + color_command(true, command_params(c), true)
            || final(out)@ == old(out)@ + color_command(true, command_params(c), false),
{
    let color = match c {
        CommandColor::Ansi(n) => CtColor::AnsiValue(n),
        CommandColor::Rgb(r, g, b) => CtColor::Rgb { r, g, b },
    };
    let _ = SetForegroundColor(color).write_ansi(out);
}

/// crossterm's `SetBackgroundColor` command text: `ESC [ 48; <params> m`,
/// or `ESC [ m` when crossterm's color output is turned off (`NO_COLOR`,
/// read from the environment once per process). Which of the two comes
/// depends on the environment and is not stated.
#[verifier::external_body]
fn write_set_background_color(out: &mut String, c: CommandColor)
    ensures
        final(out)@ == old(out)@ + color_command(false, command_params(c), true)
            || final(out)@ == old(out)@ + color_command(false, command_params(c), false),
{
    let color = match c {
        CommandColor::Ansi(n) => CtColor::AnsiValue(n),
        CommandColor::Rgb(r, g, b) => CtColor::Rgb { r, g, b },
    };
    let _ = SetBackgroundColor(color).write_ansi(out);
}

/// Write a foreground or background color command; the result says
/// whether it carried its parameters.
fn write_color(out: &mut String, fg: bool, c: CommandColor) -> (on: Ghost<bool>)
    ensures
        final(out)@ == old(out)@ + color_command(fg, command_params(c), on@),
{
    let ghost start = out@;
    if fg {
        write_set_foreground_color(out, c);
    } else {
        write_set_background_color(out, c);
    }
    Ghost(out@ == start + color_command(fg, command_params(c), true))
}

/// Write the color command for a color (see [`color_text`]); the result
/// says whether it carried its parameters.
fn queue_color_mode(out: &mut String, color: Color, fg: bool, caps: BackendCapabilities) -> (on: Ghost<bool>)
    ensures
        final(out)@ == old(out)@ + color_text(color, fg, caps, on@),
{
    let ghost start = out@;
    match color {
        Color::Default => {
            assert(out@ =~= start + color_text(color, fg, caps, true));
            Ghost(true)
        },
        Color::Indexed(i) => write_color(out, fg, CommandColor::Ansi(i)),
        Color::Rgb(r, g, b) => {
            if caps.truecolor {
                write_color(out, fg, CommandColor::Rgb(r, g, b))
            } else if caps.colors >= 256 {
                let index = rgb_to_ansi256(r, g, b);
                write_color(out, fg, CommandColor::Ansi(index))
            } else {
                assert(out@ =~= start + color_text(color, fg, caps, true));
                Ghost(true)
            }
        },
    }
}

/// Write the foreground (`fg == true`) or background color command for a
/// color with explicit capabilities (see [`color_text`]); whether the
/// command carries color parameters follows crossterm's `NO_COLOR` setting.
pub fn queue_color_with(out: &mut String, color: Color, fg: bool, caps: BackendCapabilities)
    ensures
        final(out)@ == old(out)@ + color_text(color, fg, caps, true)
            || final(out)@ == old(out)@ + color_text(color, fg, caps, false),
{
    let _ = queue_color_mode(out, color, fg, caps);
}

/// Whether a style requests an extended underline: a variant other than
/// `Unstyled`, or a non-default underline color.
pub open spec fn extended_underline_spec(s: StyleView) -> bool {
    s.underline_style != UnderlineStyle::Unstyled
        || (match s.underline_color {
            Some(Color::Rgb(_, _, _)) => true,
            Some(Color::Indexed(_)) => true,
            _ => false,
        })
}

/// Whether `style` requests an extended underline.
pub fn extended_underline(style: &Style) -> (b: bool)
    ensures
        b == extended_underline_spec(style@),
{
    let variant = match style.underline_style {
        UnderlineStyle::Unstyled => false,
        _ => true,
    };
    variant || match style.underline_color {
        Some(Color::Rgb(_, _, _)) => true,
        Some(Color::Indexed(_)) => true,
        _ => false,
    }
}

/// The kitty underline-style digit of a variant (none for `Unstyled`).
pub open spec fn underline_digit(u: UnderlineStyle) -> int {
    match u {
        UnderlineStyle::Unstyled => 0,
        UnderlineStyle::Single => 1,
        UnderlineStyle::Double => 2,
        UnderlineStyle::Curly => 3,
        UnderlineStyle::Dotted => 4,
        UnderlineStyle::Dashed => 5,
    }
}

/// Kitty's underline-variant sequence `ESC [ 4 : N m` (nothing for
/// `Unstyled`).
pub open spec fn variant_text(u: UnderlineStyle) -> Seq<char> {
    if underline_digit(u) == 0 {
        Seq::empty()
    } else {
        "\x1b[4:"@ + seq![digit_char(underline_digit(u))] + "m"@
    }
}

/// Kitty's colored-underline sequence: `ESC [ 58 ; 2 ; r ; g ; b m` or
/// `ESC [ 58 ; 5 ; n m` (nothing for a default or absent color).
pub open spec fn underline_color_text(c: Option<Color>) -> Seq<char> {
    match c {
        Some(Color::Rgb(r, g, b)) => "\x1b[58;2;"@ + dec(r as nat) + ";"@ + dec(g as nat) + ";"@
            + dec(b as nat) + "m"@,
        Some(Color::Indexed(n)) => "\x1b[58;5;"@ + dec(n as nat) + "m"@,
        _ => Seq::empty(),
    }
}

/// The underline commands of a style: nothing without an extended
/// underline; with extended underline support, kitty's variant and color
/// sequences; otherwise the plain underline attribute.
pub open spec fn underline_text(s: StyleView, caps: BackendCapabilities) -> Seq<char> {
    if !extended_underline_spec(s) {
        Seq::empty()
    } else if caps.underline_styles {
        variant_text(s.underline_style) + underline_color_text(s.underline_color)
    } else {
        sgr_text(Sgr::Underlined)
    }
}

fn write_underline_variant(out: &mut String, u: UnderlineStyle)
    ensures
        final(out)@ == old(out)@ + variant_text(u),
{
    let ghost start = out@;
    let n: u32 = match u {
        UnderlineStyle::Unstyled => 0,
        UnderlineStyle::Single => 1,
        UnderlineStyle::Double => 2,
        UnderlineStyle::Curly => 3,
        UnderlineStyle::Dotted => 4,
        UnderlineStyle::Dashed => 5,
    };
    if n != 0 {
        out.append("\x1b[4:");
        push_char(out, digit(n));
        out.append("m");
    }
    assert(out@ =~= start + variant_text(u));
}

fn write_underline_color(out: &mut String, c: Option<Color>)
    ensures
        final(out)@ == old(out)@ + underline_color_text(c),
{
    let ghost start = out@;
    match c {
        Some(Color::Rgb(r, g, b)) => {
            out.append("\x1b[58;2;");
            push_dec(out, r as u32);
            out.append(";");
            push_dec(out, g as u32);
            out.append(";");
            push_dec(out, b as u32);
            out.append("m");
        },
        Some(Color::Indexed(n)) => {
            out.append("\x1b[58;5;");
            push_dec(out, n as u32);
            out.append("m");
        },
        _ => {},
    }
    assert(out@ =~= start + underline_color_text(c));
}

/// Write the underline commands for a style's extended underline fields
/// with explicit capabilities (see [`underline_text`]).
pub fn queue_underline_with(out: &mut String, style: &Style, caps: BackendCapabilities)
    ensures
        final(out)@ == old(out)@ + underline_text(style@, caps),
{
    let ghost start = out@;
    if !extended_underline(style) {
        assert(out@ =~= start + underline_text(style@, caps));
        return;
    }
    if caps.underline_styles {
        write_underline_variant(out, style.underline_style);
        write_underline_color(out, style.underline_color);
        assert(out@ =~= start + underline_text(style@, caps));
    } else {
        write_set_attribute(out, Sgr::Underlined);
        assert(out@ =~= start + underline_text(style@, caps));
    }
}

/// The attribute command for one modifier flag when it is set.
pub open spec fn flag_text(m: u16, bit: u16, a: Sgr) -> Seq<char> {
    if m & bit == bit { sgr_text(a) } else { Seq::empty() }
}

/// The attribute commands for a modifier set, in flag order.
pub open spec fn modifiers_text(m: u16) -> Seq<char> {
    flag_text(m, 1, Sgr::Bold) + flag_text(m, 2, Sgr::Dim) + flag_text(m, 4, Sgr::Italic)
        + flag_text(m, 8, Sgr::Underlined) + flag_text(m, 16, Sgr::SlowBlink)
        + flag_text(m, 32, Sgr::Reverse) + flag_text(m, 64, Sgr::Hidden)
        + flag_text(m, 128, Sgr::CrossedOut)
}

fn queue_flag(out: &mut String, m: Modifiers, flag: Modifiers, a: Sgr)
    ensures
        final(out)@ == old(out)@ + flag_text(m@, flag@, a),
{
    if m.contains(flag) {
        write_set_attribute(out, a);
    } else {
        assert(final(out)@ =~= old(out)@ + flag_text(m@, flag@, a));
    }
}

/// Write the attribute commands for a modifier set.
pub fn queue_modifiers(out: &mut String, modifiers: Modifiers)
    ensures
        final(out)@ == old(out)@ + modifiers_text(modifiers@),
{
    let ghost start = out@;
    queue_flag(out, modifiers, Modifiers::bold(), Sgr::Bold);
    queue_flag(out, modifiers, Modifiers::dim(), Sgr::Dim);
    queue_flag(out, modifiers, Modifiers::italic(), Sgr::Italic);
    queue_flag(out, modifiers, Modifiers::underline(), Sgr::Underlined);
    queue_flag(out, modifiers, Modifiers::blink(), Sgr::SlowBlink);
    queue_flag(out, modifiers, Modifiers::reversed(), Sgr::Reverse);
    queue_flag(out, modifiers, Modifiers::hidden(), Sgr::Hidden);
    queue_flag(out, modifiers, Modifiers::strikethrough(), Sgr::CrossedOut);
    assert(out@ =~= start + modifiers_text(modifiers@));
}

/// The full style block of a run: an SGR reset, the colors, the underline,
/// and the modifiers (without the legacy underline bit when the extended
/// underline path owns the underline).
pub open spec fn style_text(s: StyleView, caps: BackendCapabilities, on: (bool, bool)) -> Seq<char> {
    sgr_text(Sgr::Reset) + color_text(s.fg, true, caps, on.0) + color_text(s.bg, false, caps, on.1)
        + underline_text(s, caps)
        + modifiers_text(if extended_underline_spec(s) { s.modifiers & !8u16 } else { s.modifiers })
}

/// Write the full style block of a run (see [`style_text`]).
fn queue_style(out: &mut String, style: &Style, caps: BackendCapabilities) -> (on: Ghost<(bool, bool)>)
    ensures
        final(out)@ == old(out)@ + style_text(style@, caps, on@),
{
    let ghost start = out@;
    write_set_attribute(out, Sgr::Reset);
    let fg_on = queue_color_mode(out, style.fg, true, caps);
    let bg_on = queue_color_mode(out, style.bg, false, caps);
    let on = Ghost((fg_on@, bg_on@));
    queue_underline_with(out, style, caps);
    let modifiers = if extended_underline(style) {
        style.modifiers.remove(Modifiers::underline())
    } else {
        style.modifiers
    };
    queue_modifiers(out, modifiers);
    assert(out@ =~= start + style_text(style@, caps, on@));
    on
}

// ---------------------------------------------------------------------------
// The caret
// ---------------------------------------------------------------------------

/// The DECSCUSR style for a (shape, blinking) pair.
pub open spec fn caret_style_spec(shape: CursorShape, blinking: bool) -> CaretStyle {
    match shape {
        CursorShape::Block => if blinking { CaretStyle::BlinkingBlock } else { CaretStyle::SteadyBlock },
        CursorShape::Bar => if blinking { CaretStyle::BlinkingBar } else { CaretStyle::SteadyBar },
        CursorShape::Underline => if blinking { CaretStyle::BlinkingUnderScore } else { CaretStyle::SteadyUnderScore },
    }
}

/// The DECSCUSR style for a (shape, blinking) pair: each shape has a
/// blinking and a steady code.
pub fn cursor_style(shape: CursorShape, blinking: bool) -> (s: CaretStyle)
    ensures
        s == caret_style_spec(shape, blinking),
{
    match shape {
        CursorShape::Block => if blinking { CaretStyle::BlinkingBlock } else { CaretStyle::SteadyBlock },
        CursorShape::Bar => if blinking { CaretStyle::BlinkingBar } else { CaretStyle::SteadyBar },
        CursorShape::Underline => if blinking { CaretStyle::BlinkingUnderScore } else { CaretStyle::SteadyUnderScore },
    }
}

/// The caret commands: move to the cursor's position, the DECSCUSR style
/// only for a non-default caret (anything but a steady block), show or hide,
/// then reset the style state.
pub open spec fn caret_text(c: crate::cursor::CursorView) -> Seq<char> {
    move_to_text(c.x, c.y)
        + (if c.shape != CursorShape::Block || c.blinking {
            caret_style_text(caret_style_spec(c.shape, c.blinking))
        } else {
            Seq::empty()
        })
        + (if c.visible { "\x1b[?25h"@ } else { "\x1b[?25l"@ })
        + "\x1b[0m"@ + sgr_text(Sgr::Reset)
}

fn queue_cursor(out: &mut String, cursor: &Cursor)
    requires
        cursor.x < u16::MAX,
        cursor.y < u16::MAX,
    ensures
        final(out)@ == old(out)@ + caret_text(cursor@),
{
    let ghost start = out@;
    write_move_to(out, cursor.x, cursor.y);
    let default_shape = match cursor.shape {
        CursorShape::Block => true,
        _ => false,
    };
    if !default_shape || cursor.blinking {
        write_cursor_style(out, cursor_style(cursor.shape, cursor.blinking));
    }
    if cursor.visible {
        write_show(out);
    } else {
        write_hide(out);
    }
    write_reset_color(out);
    write_set_attribute(out, Sgr::Reset);
    assert(out@ =~= start + caret_text(cursor@));
}

/// Position the terminal caret at the cursor's (`x`, `y`), apply its shape
/// / blinking (nothing for the default steady block), show or hide it, and
/// leave the style state reset.
pub fn flush_cursor_to(out: &mut String, cursor: &Cursor)
    requires
        cursor.x < u16::MAX,
        cursor.y < u16::MAX,
    ensures
        final(out)@ == old(out)@ + caret_text(cursor@),
{
    queue_cursor(out, cursor);
}

// ---------------------------------------------------------------------------
// Event listening, title, clipboard, startup
// ---------------------------------------------------------------------------

/// The sequences that enable mouse, focus-change and bracketed-paste
/// reporting.
pub open spec fn enable_events_text() -> Seq<char> {
    "\x1b[?1000h\x1b[?1002h\x1b[?1003h\x1b[?1015h\x1b[?1006h"@ + "\x1b[?1004h"@ + "\x1b[?2004h"@
}

/// Enable mouse, focus-change, and bracketed-paste event reporting.
pub fn enable_event_listening_to(out: &mut String)
    ensures
        final(out)@ == old(out)@ + enable_events_text(),
{
    let ghost start = out@;
    write_enable_mouse_capture(out);
    write_enable_focus_change(out);
    write_enable_bracketed_paste(out);
    assert(out@ =~= start + enable_events_text());
}

/// The sequences that disable mouse, focus-change and bracketed-paste
/// reporting.
pub open spec fn disable_events_text() -> Seq<char> {
    "\x1b[?1006l\x1b[?1015l\x1b[?1003l\x1b[?1002l\x1b[?1000l"@ + "\x1b[?1004l"@ + "\x1b[?2004l"@
}

/// Disable mouse, focus-change, and bracketed-paste event reporting: the
/// mouse modes off in reverse order, then focus change, then bracketed
/// paste.
pub fn disable_event_listening_to(out: &mut String)
    ensures
        final(out)@ == old(out)@ + disable_events_text(),
{
    let ghost start = out@;
    write_disable_mouse_capture(out);
    write_disable_focus_change(out);
    write_disable_bracketed_paste(out);
    assert(out@ =~= start + disable_events_text());
}

/// Set the terminal window title (OSC 0: `ESC ] 0 ; title BEL`).
pub fn set_title_to(out: &mut String, title: &str)
    ensures
        final(out)@ == old(out)@ + "\x1b]0;"@ + title@ + "\x07"@,
{
    write_set_title(out, title);
}

/// Copy `text` to the system clipboard (OSC 52: `ESC ] 52 ; c ; <base64>
/// BEL`, the payload being the text's UTF-8 bytes base64-encoded per RFC
/// 4648).
pub fn set_clipboard_to(out: &mut String, text: &str)
    ensures
        final(out)@ == old(out)@ + "\x1b]52;c;"@ + base64_standard(text@) + "\x07"@,
{
    let encoded = encode_base64(text);
    let ghost start = out@;
    out.append("\x1b]52;c;");
    out.append(encoded.as_str());
    out.append("\x07");
    assert(out@ =~= start + "\x1b]52;c;"@ + base64_standard(text@) + "\x07"@);
}

/// The startup batch: the alternate screen (when asked for), the window
/// title (when given), then event listening.
pub open spec fn startup_text(use_alt_screen: bool, title: Option<Seq<char>>) -> Seq<char> {
    (if use_alt_screen { "\x1b[?1049h"@ } else { Seq::empty() })
        + (match title { Some(t) => "\x1b]0;"@ + t + "\x07"@, None => Seq::empty() })
        + enable_events_text()
}

/// Queue the renderer's post-raw-mode startup sequence: the alternate
/// screen (skipped when `use_alt_screen` is `false`), the window title (when
/// `Some`), then event listening.
pub fn queue_startup_to(out: &mut String, use_alt_screen: bool, title: Option<&str>)
    ensures
        final(out)@ == old(out)@ + startup_text(use_alt_screen, match title { Some(t) => Some(t@), None => None }),
{
    let ghost start = out@;
    if use_alt_screen {
        write_enter_alternate_screen(out);
    }
    match title {
        Some(t) => write_set_title(out, t),
        None => {},
    }
    enable_event_listening_to(out);
    assert(out@ =~= start + startup_text(use_alt_screen, match title { Some(t) => Some(t@), None => None }));
}

// ---------------------------------------------------------------------------
// Runs
// ---------------------------------------------------------------------------

/// The views of a slice of updates.
pub open spec fn update_views(us: Seq<CellUpdate>) -> Seq<CellUpdateView> {
    us.map_values(|u: CellUpdate| u@)
}

/// The text an update contributes to its run's print: a masked continuation
/// cell (NUL) prints a space; a multi-char cluster prints its full symbol; a
/// single char prints itself (a zero-width combining mark prints raw).
pub open spec fn cell_text_spec(u: CellUpdateView) -> Seq<char> {
    if u.masked && u.ch == '\0' {
        seq![' ']
    } else {
        match u.symbol {
            Some(sym) => sym,
            None => seq![u.ch],
        }
    }
}

/// How many columns an update's printed text advances the cursor: 2 for a
/// 2-column cluster lead, 0 for a combining mark, 1 otherwise.
pub open spec fn cell_advance_spec(u: CellUpdateView) -> u8 {
    if u.width == 2 {
        2
    } else if u.width == 0 && u.ch != '\0' {
        0
    } else {
        1
    }
}

/// The value of a batched run: the first member's position, the shared
/// style, the last member's column and advance, and the text.
pub struct RunView {
    pub x: u16,
    pub y: u16,
    pub style: StyleView,
    pub last_x: u16,
    pub last_advance: u8,
    pub text: Seq<char>,
}

/// A run holding just `u`.
pub open spec fn run_start(u: CellUpdateView) -> RunView {
    RunView { x: u.x, y: u.y, style: u.style, last_x: u.x, last_advance: cell_advance_spec(u), text: cell_text_spec(u) }
}

/// Whether `u` continues the run: same row, same style, the next column
/// over, and the run's last member advanced the cursor by exactly one
/// column.
pub open spec fn can_extend_spec(r: RunView, u: CellUpdateView) -> bool {
    u.y == r.y && u.style == r.style && u.x >= 1 && u.x - 1 == r.last_x && r.last_advance == 1
}

/// The run with `u` appended.
pub open spec fn run_push(r: RunView, u: CellUpdateView) -> RunView {
    RunView { last_x: u.x, last_advance: cell_advance_spec(u), text: r.text + cell_text_spec(u), ..r }
}

/// The runs a sequence of updates batches into, in order.
pub open spec fn runs_of(us: Seq<CellUpdateView>) -> Seq<RunView>
    decreases us.len(),
{
    if us.len() == 0 {
        Seq::empty()
    } else {
        let rs = runs_of(us.drop_last());
        let u = us.last();
        if rs.len() > 0 && can_extend_spec(rs.last(), u) {
            rs.update(rs.len() - 1, run_push(rs.last(), u))
        } else {
            rs.push(run_start(u))
        }
    }
}

/// Every run starts at a position the cursor move can address.
pub open spec fn runs_addressable(rs: Seq<RunView>) -> bool {
    forall|k: int| 0 <= k < rs.len() ==> (#[trigger] rs[k]).x < u16::MAX && rs[k].y < u16::MAX
}

/// The commands of one run: the move to its first cell, the style block
/// when `restyle`, the OSC 8 hyperlink open, the text, and the hyperlink
/// close.
pub open spec fn run_text(r: RunView, restyle: bool, caps: BackendCapabilities, on: (bool, bool)) -> Seq<char> {
    move_to_text(r.x, r.y)
        + (if restyle { style_text(r.style, caps, on) } else { Seq::empty() })
        + (match r.style.hyperlink { Some(url) => "\x1b]8;;"@ + url + "\x1b\\"@, None => Seq::empty() })
        + r.text
        + (if r.style.hyperlink is Some { "\x1b]8;;\x1b\\"@ } else { Seq::empty() })
}

/// The commands of a sequence of runs: a run restyles unless the run before
/// it has the same style. Run `i`'s color commands carry their parameters
/// as `ons[i]` says (foreground, background).
#[verifier::opaque]
pub open spec fn cells_text(rs: Seq<RunView>, caps: BackendCapabilities, ons: Seq<(bool, bool)>) -> Seq<char>
    decreases rs.len(),
{
    if rs.len() == 0 {
        Seq::empty()
    } else {
        cells_text(rs.drop_last(), caps, ons.drop_last())
            + run_text(rs.last(), rs.len() == 1 || rs[rs.len() - 2].style != rs.last().style, caps, ons.last())
    }
}

/// The text an update contributes to its run's print.
pub fn cell_text(update: &CellUpdate) -> (s: String)
    ensures
        s@ == cell_text_spec(update@),
{
    if update.masked && update.ch == '\0' {
        let mut s = String::new();
        push_char(&mut s, ' ');
        s
    } else {
        match &update.symbol {
            Some(sym) => sym.clone(),
            None => {
                let mut s = String::new();
                push_char(&mut s, update.ch);
                s
            },
        }
    }
}

/// How many terminal columns an update's printed text advances the cursor.
pub fn cell_advance(update: &CellUpdate) -> (a: u8)
    ensures
        a == cell_advance_spec(update@),
{
    if update.width == 2 {
        2
    } else if update.width == 0 && update.ch != '\0' {
        0
    } else {
        1
    }
}

/// Whether a run with style `s` writes its style block after a run with
/// style `last` (none before the first run of a flush).
pub open spec fn restyle_needed(last: Option<Style>, s: StyleView) -> bool {
    match last {
        Some(l) => l@ != s,
        None => true,
    }
}

/// A batched run of consecutive same-style updates on one row.
pub struct Run {
    /// Column of the run's first member (the cursor-move target).
    pub x: u16,
    /// Row shared by every member.
    pub y: u16,
    /// The style shared by every member.
    pub style: Style,
    /// Column of the run's last member.
    pub last_x: u16,
    /// Cursor advance of the run's last member's printed text.
    pub last_advance: u8,
    /// The run's text, one cluster per member, in column order.
    pub text: String,
}

impl View for Run {
    type V = RunView;

    open spec fn view(&self) -> RunView {
        RunView {
            x: self.x,
            y: self.y,
            style: self.style@,
            last_x: self.last_x,
            last_advance: self.last_advance,
            text: self.text@,
        }
    }
}

impl Run {
    /// A run holding just `update`.
    pub fn start(update: &CellUpdate) -> (r: Self)
        ensures
            r@ == run_start(update@),
    {
        Run {
            x: update.x,
            y: update.y,
            style: update.style.clone(),
            last_x: update.x,
            last_advance: cell_advance(update),
            text: cell_text(update),
        }
    }

    /// Whether `update` continues this run.
    pub fn can_extend(&self, update: &CellUpdate) -> (b: bool)
        ensures
            b == can_extend_spec(self@, update@),
    {
        update.y == self.y && update.style == self.style && update.x >= 1 && update.x - 1 == self.last_x
            && self.last_advance == 1
    }

    /// Append `update`'s text to the run.
    pub fn push(&mut self, update: &CellUpdate)
        ensures
            final(self)@ == run_push(old(self)@, update@),
    {
        let t = cell_text(update);
        self.text.append(t.as_str());
        self.last_x = update.x;
        self.last_advance = cell_advance(update);
    }

    /// Write the run's commands (see [`run_text`]); `last_style` is the
    /// style applied by the previously written run of this flush, and the
    /// style block is skipped when it equals this run's.
    /// The result says whether its color commands carried their parameters.
    pub fn queue(&self, out: &mut String, last_style: &mut Option<Style>, caps: BackendCapabilities) -> (on: Ghost<(bool, bool)>)
        requires
            self.x < u16::MAX,
            self.y < u16::MAX,
        ensures
            final(out)@ == old(out)@ + run_text(self@, restyle_needed(*old(last_style), self.style@), caps, on@),
            match *final(last_style) { Some(s) => s@ == self.style@, None => false },
    {
        let ghost start = out@;
        write_move_to(out, self.x, self.y);
        let on = restyle(out, &self.style, last_style, caps);
        let ghost mid = out@;
        write_linked_text(out, &self.style, self.text.as_str());
        assert(out@ =~= start + run_text(self@, restyle_needed(*old(last_style), self.style@), caps, on@));
        on
    }
}

/// Write the style block unless `last_style` already holds the style, and
/// record the style.
fn restyle(out: &mut String, style: &Style, last_style: &mut Option<Style>, caps: BackendCapabilities) -> (on: Ghost<(bool, bool)>)
    ensures
        final(out)@ == old(out)@ + (if restyle_needed(*old(last_style), style@) {
            style_text(style@, caps, on@)
        } else {
            Seq::empty()
        }),
        match *final(last_style) { Some(s) => s@ == style@, None => false },
{
    let same = match last_style {
        Some(s) => *s == *style,
        None => false,
    };
    if !same {
        let on = queue_style(out, style, caps);
        *last_style = Some(style.clone());
        on
    } else {
        assert(out@ =~= old(out)@ + Seq::<char>::empty());
        Ghost((true, true))
    }
}

/// Write `text`, wrapped in OSC 8 open/close sequences when the style
/// carries a hyperlink.
fn write_linked_text(out: &mut String, style: &Style, text: &str)
    ensures
        final(out)@ == old(out)@
            + (match style@.hyperlink { Some(url) => "\x1b]8;;"@ + url + "\x1b\\"@, None => Seq::empty() })
            + text@
            + (if style@.hyperlink is Some { "\x1b]8;;\x1b\\"@ } else { Seq::empty() }),
{
    let ghost start = out@;
    match &style.hyperlink {
        Some(url) => {
            out.append("\x1b]8;;");
            out.append(url.as_str());
            out.append("\x1b\\");
        },
        None => {},
    }
    write_print(out, text);
    if style.hyperlink.is_some() {
        out.append("\x1b]8;;\x1b\\");
    }
    assert(out@ =~= start
        + (match style@.hyperlink { Some(url) => "\x1b]8;;"@ + url + "\x1b\\"@, None => Seq::empty() })
        + text@
        + (if style@.hyperlink is Some { "\x1b]8;;\x1b\\"@ } else { Seq::empty() }));
}

proof fn lemma_runs_nonempty(us: Seq<CellUpdateView>)
    ensures
        us.len() > 0 ==> runs_of(us).len() > 0,
        runs_of(us).len() <= us.len(),
    decreases us.len(),
{
    if us.len() > 0 {
        lemma_runs_nonempty(us.drop_last());
    }
}

/// Whether the runs of `a` start where the runs of `b` at the same places
/// start, with the same style.
pub open spec fn heads_prefix(a: Seq<RunView>, b: Seq<RunView>) -> bool {
    &&& a.len() <= b.len()
    &&& forall|j: int| 0 <= j < a.len() ==> (#[trigger] a[j]).x == b[j].x && a[j].y == b[j].y
}

proof fn lemma_runs_step(us: Seq<CellUpdateView>, k: int)
    requires
        0 <= k < us.len(),
    ensures
        heads_prefix(runs_of(us.take(k)), runs_of(us.take(k + 1))),
{
    assert(us.take(k + 1).drop_last() =~= us.take(k));
}

proof fn lemma_runs_heads(us: Seq<CellUpdateView>, k: int)
    requires
        0 <= k <= us.len(),
    ensures
        heads_prefix(runs_of(us.take(k)), runs_of(us)),
    decreases us.len() - k,
{
    if k == us.len() {
        assert(us.take(k) =~= us);
    } else {
        lemma_runs_step(us, k);
        lemma_runs_heads(us, k + 1);
    }
}

/// Gather the run that starts at `updates[i]`: it extends while the next
/// update continues it.
fn gather_run(updates: &[CellUpdate], i: usize) -> (r: (Run, usize))
    requires
        i < updates@.len(),
        i == 0 || (runs_of(update_views(updates@).take(i as int)).len() > 0
            && !can_extend_spec(runs_of(update_views(updates@).take(i as int)).last(), updates@[i as int]@)),
    ensures
        i < r.1 <= updates@.len(),
        runs_of(update_views(updates@).take(r.1 as int))
            == runs_of(update_views(updates@).take(i as int)).push(r.0@),
        r.1 < updates@.len() ==> !can_extend_spec(r.0@, updates@[r.1 as int]@),
{
    let ghost us = update_views(updates@);
    let ghost r0 = runs_of(us.take(i as int));
    let n = updates.len();
    proof {
        assert(us.take(i + 1).drop_last() =~= us.take(i as int));
        assert(us.take(i + 1).last() == us[i as int]);
    }
    let mut run = Run::start(&updates[i]);
    let mut k = i + 1;
    assert(runs_of(us.take(k as int)) =~= r0.push(run@));
    while k < n && run.can_extend(&updates[k])
        invariant
            n == updates@.len(),
            us == update_views(updates@),
            us.len() == n,
            i < k <= n,
            runs_of(us.take(k as int)) == r0.push(run@),
        decreases n - k,
    {
        proof {
            assert(us.take(k + 1).drop_last() =~= us.take(k as int));
            assert(us.take(k + 1).last() == us[k as int]);
        }
        run.push(&updates[k]);
        k += 1;
        assert(runs_of(us.take(k as int)) =~= r0.push(run@));
    }
    (run, k)
}

proof fn lemma_cells_text_push(r0: Seq<RunView>, run: RunView, caps: BackendCapabilities, ms: Seq<(bool, bool)>,
    on: (bool, bool))
    ensures
        cells_text(r0.push(run), caps, ms.push(on))
            == cells_text(r0, caps, ms) + run_text(run, r0.len() == 0 || r0.last().style != run.style, caps, on),
{
    let rs = r0.push(run);
    assert(rs.drop_last() =~= r0);
    assert(ms.push(on).drop_last() =~= ms);
    if r0.len() > 0 {
        assert(rs[rs.len() - 2] == r0.last());
    }
    reveal(cells_text);
}

/// Write the commands for a batch of updates, merging consecutive updates
/// that share a style, a row and adjacent columns into runs; the result
/// says, run by run, whether the color commands carried their parameters.
fn queue_runs(out: &mut String, updates: &[CellUpdate], caps: BackendCapabilities) -> (ms: Ghost<Seq<(bool, bool)>>)
    requires
        runs_addressable(runs_of(update_views(updates@))),
    ensures
        ms@.len() == runs_of(update_views(updates@)).len(),
        final(out)@ == old(out)@ + cells_text(runs_of(update_views(updates@)), caps, ms@),
{
    let ghost us = update_views(updates@);
    let ghost start = out@;
    let ghost mut ms: Seq<(bool, bool)> = Seq::empty();
    let n = updates.len();
    let mut last_style: Option<Style> = None;
    let mut i: usize = 0;
    assert(us.take(0) =~= Seq::<CellUpdateView>::empty());
    proof { reveal(cells_text); }
    while i < n
        invariant
            n == updates@.len(),
            us == update_views(updates@),
            us.len() == n,
            i <= n,
            runs_addressable(runs_of(us)),
            ms.len() == runs_of(us.take(i as int)).len(),
            out@ == start + cells_text(runs_of(us.take(i as int)), caps, ms),
            i == 0 ==> last_style is None,
            i > 0 ==> runs_of(us.take(i as int)).len() > 0,
            i > 0 ==> match last_style { Some(s) => s@ == runs_of(us.take(i as int)).last().style, None => false },
            0 < i < n ==> !can_extend_spec(runs_of(us.take(i as int)).last(), us[i as int]),
        decreases n - i,
    {
        let ghost r0 = runs_of(us.take(i as int));
        let (run, next) = gather_run(updates, i);
        proof {
            lemma_runs_heads(us, next as int);
            assert(runs_of(us.take(next as int))[r0.len() as int] == run@);
            assert(runs_of(us)[r0.len() as int].x < u16::MAX);
        }
        let on = run.queue(out, &mut last_style, caps);
        proof {
            lemma_cells_text_push(r0, run@, caps, ms, on@);
            ms = ms.push(on@);
        }
        i = next;
        assert(runs_of(us.take(i as int)).last() == run@);
    }
    assert(us.take(n as int) =~= us);
    Ghost(ms)
}

/// Write the commands for a batch of updates, merging consecutive updates
/// that share a style, a row and adjacent columns into runs. Whether each
/// color command carries its parameters follows crossterm's `NO_COLOR`
/// setting.
pub fn queue_cells(out: &mut String, updates: &[CellUpdate], caps: BackendCapabilities)
    requires
        runs_addressable(runs_of(update_views(updates@))),
    ensures
        exists|ms: Seq<(bool, bool)>|
            ms.len() == runs_of(update_views(updates@)).len()
                && final(out)@ == old(out)@ + #[trigger] cells_text(runs_of(update_views(updates@)), caps, ms),
{
    let _ = queue_runs(out, updates, caps);
}

// ---------------------------------------------------------------------------
// Frame flushes
// ---------------------------------------------------------------------------

/// What a frame flush writes: nothing for an empty diff parked where the
/// previous flush left the caret; only the park move for an empty diff
/// otherwise; else the runs, the park move, and two style resets.
pub open spec fn flush_text(
    us: Seq<CellUpdateView>,
    pos: (u16, u16),
    last: Option<(u16, u16)>,
    caps: BackendCapabilities,
    ons: Seq<(bool, bool)>,
) -> Seq<char> {
    if us.len() == 0 {
        if last == Some(pos) { Seq::empty() } else { move_to_text(pos.0, pos.1) }
    } else {
        cells_text(runs_of(us), caps, ons) + move_to_text(pos.0, pos.1) + "\x1b[0m"@ + sgr_text(Sgr::Reset)
    }
}

/// The positions a frame flush moves the cursor to are addressable.
pub open spec fn flush_addressable(us: Seq<CellUpdateView>, pos: (u16, u16), last: Option<(u16, u16)>) -> bool {
    &&& runs_addressable(runs_of(us))
    &&& (us.len() > 0 || last != Some(pos)) ==> pos.0 < u16::MAX && pos.1 < u16::MAX
}

/// Flush a diff of cell updates, then park the cursor at `cursor_pos`
/// (column, row), leaving the style state reset (see [`flush_text`]). Runs
/// are batched; an empty diff writes nothing when the caret is already
/// parked there and only the move otherwise. Whether each color command
/// carries its parameters follows crossterm's `NO_COLOR` setting.
/// `last_flush_pos` records the park position written by the most recent
/// flush that wrote anything.
pub fn flush_diff_to(
    out: &mut String,
    updates: &[CellUpdate],
    cursor_pos: (u16, u16),
    last_flush_pos: &mut Option<(u16, u16)>,
    caps: BackendCapabilities,
)
    requires
        flush_addressable(update_views(updates@), cursor_pos, *old(last_flush_pos)),
    ensures
        exists|ons: Seq<(bool, bool)>|
            ons.len() == runs_of(update_views(updates@)).len()
                && final(out)@ == old(out)@ + #[trigger] flush_text(update_views(updates@), cursor_pos, *old(last_flush_pos), caps, ons),
        *final(last_flush_pos) == (if updates@.len() == 0 && *old(last_flush_pos) == Some(cursor_pos) {
            *old(last_flush_pos)
        } else {
            Some(cursor_pos)
        }),
{
    let ghost start = out@;
    let ghost us = update_views(updates@);
    if updates.len() == 0 {
        let parked = match *last_flush_pos {
            Some(p) => p.0 == cursor_pos.0 && p.1 == cursor_pos.1,
            None => false,
        };
        let ghost none: Seq<(bool, bool)> = Seq::empty();
        assert(runs_of(us).len() == 0) by {
            reveal_with_fuel(runs_of, 1);
        }
        if parked {
            assert(out@ =~= start + flush_text(us, cursor_pos, *old(last_flush_pos), caps, none));
            return;
        }
        write_move_to(out, cursor_pos.0, cursor_pos.1);
        *last_flush_pos = Some(cursor_pos);
        assert(out@ =~= start + flush_text(us, cursor_pos, *old(last_flush_pos), caps, none));
        return;
    }
    let ons = queue_runs(out, updates, caps);
    write_move_to(out, cursor_pos.0, cursor_pos.1);
    write_reset_color(out);
    write_set_attribute(out, Sgr::Reset);
    *last_flush_pos = Some(cursor_pos);
    assert(out@ =~= start + flush_text(us, cursor_pos, *old(last_flush_pos), caps, ons@));
}

/// The terminal backend's frame-flush state: the park position written by
/// the most recent flush that wrote anything (`None` before the first). It
/// lets an empty frame that would park the caret in the same place skip the
/// flush entirely.
#[derive(Debug, Clone, Copy)]
pub struct Backend {
    last_flush_pos: Option<(u16, u16)>,
}

impl View for Backend {
    type V = Option<(u16, u16)>;

    closed spec fn view(&self) -> Option<(u16, u16)> {
        self.last_flush_pos
    }
}

impl Backend {
    /// A fresh backend, with no park position recorded yet.
    pub fn new() -> (b: Self)
        ensures
            b@ is None,
    {
        Backend { last_flush_pos: None }
    }

    /// Queue a frame flush of `updates` parked at `cursor_pos` onto `out`
    /// (see [`flush_diff_to`]), recording the park position when anything
    /// was written.
    pub fn queue_diff(&mut self, out: &mut String, updates: &[CellUpdate], cursor_pos: (u16, u16), caps: BackendCapabilities)
        requires
            flush_addressable(update_views(updates@), cursor_pos, old(self)@),
        ensures
            exists|ons: Seq<(bool, bool)>|
                ons.len() == runs_of(update_views(updates@)).len()
                    && final(out)@ == old(out)@ + #[trigger] flush_text(update_views(updates@), cursor_pos, old(self)@, caps, ons),
            final(self)@ == (if updates@.len() == 0 && old(self)@ == Some(cursor_pos) {
                old(self)@
            } else {
                Some(cursor_pos)
            }),
    {
        flush_diff_to(out, updates, cursor_pos, &mut self.last_flush_pos, caps);
    }
}

impl Default for Backend {
    fn default() -> (b: Self)
        ensures
            b@ is None,
    {
        Backend::new()
    }
}

/// Flush a diff of cell updates, then position the terminal caret at the
/// cursor's (`x`, `y`), apply its shape / blinking (nothing for the default
/// steady block), and show or hide it, leaving the style state reset.
/// Whether each color command carries its parameters follows crossterm's
/// `NO_COLOR` setting.
pub fn flush_diff_with_cursor_to(out: &mut String, updates: &[CellUpdate], cursor: &Cursor, caps: BackendCapabilities)
    requires
        runs_addressable(runs_of(update_views(updates@))),
        cursor.x < u16::MAX,
        cursor.y < u16::MAX,
    ensures
        exists|ons: Seq<(bool, bool)>|
            ons.len() == runs_of(update_views(updates@)).len()
                && final(out)@ == old(out)@ + #[trigger] cells_text(runs_of(update_views(updates@)), caps, ons) + caret_text(cursor@),
{
    let ghost start = out@;
    let ons = queue_runs(out, updates, caps);
    queue_cursor(out, cursor);
    assert(out@ =~= start + cells_text(runs_of(update_views(updates@)), caps, ons@) + caret_text(cursor@));
}

// ---------------------------------------------------------------------------
// Laws
// ---------------------------------------------------------------------------

/// The texts of a sequence of runs, in order.
pub open spec fn run_texts(rs: Seq<RunView>) -> Seq<char>
    decreases rs.len(),
{
    if rs.len() == 0 { Seq::empty() } else { run_texts(rs.drop_last()) + rs.last().text }
}

/// The texts of a sequence of updates, in order.
pub open spec fn cell_texts(us: Seq<CellUpdateView>) -> Seq<char>
    decreases us.len(),
{
    if us.len() == 0 { Seq::empty() } else { cell_texts(us.drop_last()) + cell_text_spec(us.last()) }
}

/// Batching loses and repeats nothing: the runs' texts, in order, are the
/// updates' texts, in order — every cell is printed exactly once.
pub proof fn runs_print_every_cell_once(us: Seq<CellUpdateView>)
    ensures
        run_texts(runs_of(us)) == cell_texts(us),
    decreases us.len(),
{
    if us.len() > 0 {
        let rs = runs_of(us.drop_last());
        let u = us.last();
        runs_print_every_cell_once(us.drop_last());
        if rs.len() > 0 && can_extend_spec(rs.last(), u) {
            let nr = rs.update(rs.len() - 1, run_push(rs.last(), u));
            assert(nr.drop_last() =~= rs.drop_last());
            assert(run_texts(nr) =~= run_texts(rs) + cell_text_spec(u));
        } else {
            assert(rs.push(run_start(u)).drop_last() =~= rs);
        }
    }
}

/// Members of a run share its row and style: a run only ever holds updates
/// that continued it.
pub proof fn runs_share_row_and_style(us: Seq<CellUpdateView>, k: int)
    requires
        0 <= k < us.len(),
    ensures
        exists|j: int| 0 <= j < runs_of(us).len() && #[trigger] runs_of(us)[j].y == us[k].y
            && runs_of(us)[j].style == us[k].style,
    decreases us.len(),
{
    let rs = runs_of(us.drop_last());
    let u = us.last();
    if k < us.len() - 1 {
        runs_share_row_and_style(us.drop_last(), k);
        let j = choose|j: int| 0 <= j < rs.len() && #[trigger] rs[j].y == us.drop_last()[k].y
            && rs[j].style == us.drop_last()[k].style;
        if rs.len() > 0 && can_extend_spec(rs.last(), u) {
            assert(runs_of(us)[j].y == us[k].y);
        } else {
            assert(runs_of(us)[j] == rs[j]);
        }
    } else {
        if rs.len() > 0 && can_extend_spec(rs.last(), u) {
            assert(runs_of(us)[rs.len() - 1].y == us[k].y);
        } else {
            assert(runs_of(us)[rs.len() as int].y == us[k].y);
        }
    }
}

/// A repeated empty frame is free: once a flush has parked the caret at
/// `pos`, an empty diff parked at `pos` writes nothing and keeps the record.
pub proof fn empty_frame_after_park_writes_nothing(
    us: Seq<CellUpdateView>,
    pos: (u16, u16),
    last: Option<(u16, u16)>,
    caps: BackendCapabilities,
    ons: Seq<(bool, bool)>,
)
    ensures
        ({
            let after = if us.len() == 0 && last == Some(pos) { last } else { Some(pos) };
            flush_text(Seq::empty(), pos, after, caps, ons) == Seq::<char>::empty()
        }),
{
}

} // verus!
