//! The terminal cell model and per-cell updates.
//!
//! The indivisible text unit is the grapheme cluster (UAX #29 extended
//! grapheme clusters). A cluster occupies `cluster_width` terminal columns
//! (the sum of its member characters' [`char_width`]s, clamped to 2).
//!
//! Escape sequences (CSI and OSC) are stripped at ingestion
//! ([`strip_escapes`]): an escape occupies no columns and never enters the
//! cluster/cell model.

use std::borrow::Cow;

use unicode_segmentation::UnicodeSegmentation;
use unicode_width::UnicodeWidthChar;
use vstd::prelude::*;

use crate::style::{Style, StyleView, opt_str_view, clone_opt_string, opt_string_eq, plain_style};
use crate::text::{chars_of, push_char};

verus! {

// ---------------------------------------------------------------------------
// Character widths
// ---------------------------------------------------------------------------

/// The UAX #11 width table entry of a character at or above U+00A0.
pub uninterp spec fn table_char_width(c: char) -> usize;

/// What `unicode-width` reports for a character: `None` for the C0 and C1
/// control codes, 1 for printable ASCII, the table width otherwise.
pub open spec fn unicode_char_width(c: char) -> Option<usize> {
    if (c as u32) < 0x20 {
        None
    } else if (c as u32) < 0x7f {
        Some(1)
    } else if (c as u32) < 0xa0 {
        None
    } else {
        Some(table_char_width(c))
    }
}

/// `UnicodeWidthChar::width` from `unicode-width`: `None` for control
/// characters (U+0000..U+001F and U+007F..U+009F), 1 for printable ASCII, and
/// the UAX #11 table width (a `u8`) for every other character.
#[verifier::external_body]
fn unicode_width_of(c: char) -> (w: Option<usize>)
    ensures
        (c as u32) < 0x20 ==> w is None,
        0x20 <= (c as u32) < 0x7f ==> w == Some(1usize),
        0x7f <= (c as u32) < 0xa0 ==> w is None,
        (c as u32) >= 0xa0 ==> w == Some(table_char_width(c)) && w->0 <= 255,
{
    c.width()
}

/// The display width of a character in terminal columns.
pub open spec fn char_width_spec(c: char) -> u8 {
    if c == '\0' {
        0
    } else {
        match unicode_char_width(c) {
            None => 1,
            Some(w) => if w >= 2 { 2 } else { w as u8 },
        }
    }
}

/// The display width of a character in terminal columns.
///
/// Returns `0` for NUL (the masked continuation cell) and for combining
/// marks, `2` for wide characters (CJK, fullwidth), and `1` otherwise.
/// Control characters that unicode-width cannot classify fall back to 1.
pub fn char_width(ch: char) -> (w: u8)
    ensures
        w == char_width_spec(ch),
        w <= 2,
{
    if ch == '\0' {
        return 0;
    }
    let uw = unicode_width_of(ch);
    assert(uw == unicode_char_width(ch));
    match uw {
        Some(0) => 0,
        Some(1) => 1,
        Some(w) => if w >= 2 { 2 } else { w as u8 },
        None => 1,
    }
}

// ---------------------------------------------------------------------------
// Escape stripping
// ---------------------------------------------------------------------------

/// Whether `c` is a CSI final byte (`0x40..=0x7E`).
pub open spec fn is_csi_final(c: char) -> bool {
    0x40 <= (c as u32) <= 0x7e
}

/// The text after a CSI body (introducer already consumed): everything after
/// the first final byte, or nothing when the sequence is truncated.
pub open spec fn after_csi(s: Seq<char>) -> Seq<char>
    decreases s.len(),
{
    if s.len() == 0 {
        s
    } else if is_csi_final(s[0]) {
        s.skip(1)
    } else {
        after_csi(s.skip(1))
    }
}

/// The text after an OSC body (introducer already consumed): everything after
/// the first terminator — BEL, `ESC \` or U+009C — where an `ESC` followed by
/// anything else consumes both characters as body; nothing when truncated.
pub open spec fn after_osc(s: Seq<char>) -> Seq<char>
    decreases s.len(),
{
    if s.len() == 0 {
        s
    } else if s[0] == '\u{7}' || s[0] == '\u{9c}' {
        s.skip(1)
    } else if s[0] == '\u{1b}' {
        if s.len() == 1 {
            s.skip(1)
        } else if s[1] == '\\' {
            s.skip(2)
        } else {
            after_osc(s.skip(2))
        }
    } else {
        after_osc(s.skip(1))
    }
}

pub proof fn lemma_after_csi_shorter(s: Seq<char>)
    ensures
        after_csi(s).len() <= s.len(),
        after_csi(s) == s.skip(s.len() - after_csi(s).len()),
    decreases s.len(),
{
    if s.len() > 0 && !is_csi_final(s[0]) {
        lemma_after_csi_shorter(s.skip(1));
        assert(s.skip(1).skip(s.len() - 1 - after_csi(s).len()) =~= s.skip(s.len() - after_csi(s).len()));
    }
}

pub proof fn lemma_after_osc_shorter(s: Seq<char>)
    ensures
        after_osc(s).len() <= s.len(),
        after_osc(s) == s.skip(s.len() - after_osc(s).len()),
    decreases s.len(),
{
    if s.len() > 0 && !(s[0] == '\u{7}' || s[0] == '\u{9c}') {
        if s[0] == '\u{1b}' {
            if s.len() > 1 && s[1] != '\\' {
                lemma_after_osc_shorter(s.skip(2));
                assert(s.skip(2).skip(s.len() - 2 - after_osc(s).len()) =~= s.skip(s.len() - after_osc(s).len()));
            }
        } else {
            lemma_after_osc_shorter(s.skip(1));
            assert(s.skip(1).skip(s.len() - 1 - after_osc(s).len()) =~= s.skip(s.len() - after_osc(s).len()));
        }
    }
}

/// `s` with every CSI and OSC escape sequence removed (see
/// [`strip_escapes`] for the rule).
pub open spec fn strip_spec(s: Seq<char>) -> Seq<char>
    decreases s.len(),
{
    if s.len() == 0 {
        s
    } else if s[0] == '\u{1b}' && s.len() > 1 && s[1] == '[' {
        proof { lemma_after_csi_shorter(s.skip(2)); }
        strip_spec(after_csi(s.skip(2)))
    } else if s[0] == '\u{1b}' && s.len() > 1 && s[1] == ']' {
        proof { lemma_after_osc_shorter(s.skip(2)); }
        strip_spec(after_osc(s.skip(2)))
    } else if s[0] == '\u{9b}' {
        proof { lemma_after_csi_shorter(s.skip(1)); }
        strip_spec(after_csi(s.skip(1)))
    } else {
        seq![s[0]] + strip_spec(s.skip(1))
    }
}

/// Whether some escape sequence starts at position `i` of `s`.
pub open spec fn sequence_at(s: Seq<char>, i: int) -> bool {
    ||| s[i] == '\u{9b}'
    ||| (s[i] == '\u{1b}' && i + 1 < s.len() && (s[i + 1] == '[' || s[i + 1] == ']'))
}

/// Whether `s` holds no escape-sequence introducer at all.
pub open spec fn escape_free(s: Seq<char>) -> bool {
    forall|i: int| 0 <= i < s.len() ==> !sequence_at(s, i)
}

proof fn lemma_strip_escape_free(s: Seq<char>)
    requires
        escape_free(s),
    ensures
        strip_spec(s) == s,
    decreases s.len(),
{
    if s.len() > 0 {
        assert(!sequence_at(s, 0));
        assert forall|i: int| 0 <= i < s.skip(1).len() implies !sequence_at(s.skip(1), i) by {
            assert(!sequence_at(s, i + 1));
        }
        lemma_strip_escape_free(s.skip(1));
        assert(seq![s[0]] + s.skip(1) =~= s);
    }
}

/// Index just past the CSI body starting at `start` (or the end).
fn csi_end(cs: &Vec<char>, start: usize) -> (end: usize)
    requires
        start <= cs@.len(),
    ensures
        start <= end <= cs@.len(),
        cs@.skip(end as int) == after_csi(cs@.skip(start as int)),
{
    let mut j = start;
    while j < cs.len()
        invariant
            start <= j <= cs@.len(),
            after_csi(cs@.skip(start as int)) == after_csi(cs@.skip(j as int)),
        decreases cs@.len() - j,
    {
        let c = cs[j];
        assert(cs@.skip(j as int)[0] == c);
        assert(cs@.skip(j as int).skip(1) =~= cs@.skip(j + 1));
        let cu = c as u32;
        if 0x40 <= cu && cu <= 0x7e {
            return j + 1;
        }
        assert(!is_csi_final(c));
        assert(after_csi(cs@.skip(j as int)) == after_csi(cs@.skip(j + 1)));
        j += 1;
    }
    assert(cs@.skip(j as int).len() == 0);
    j
}

/// Index just past the OSC body starting at `start` (or the end).
fn osc_end(cs: &Vec<char>, start: usize) -> (end: usize)
    requires
        start <= cs@.len(),
    ensures
        start <= end <= cs@.len(),
        cs@.skip(end as int) == after_osc(cs@.skip(start as int)),
{
    let mut j = start;
    while j < cs.len()
        invariant
            start <= j <= cs@.len(),
            after_osc(cs@.skip(start as int)) == after_osc(cs@.skip(j as int)),
        decreases cs@.len() - j,
    {
        let c = cs[j];
        assert(cs@.skip(j as int)[0] == c);
        assert(cs@.skip(j as int).skip(1) =~= cs@.skip(j + 1));
        if c == '\u{7}' || c == '\u{9c}' {
            return j + 1;
        }
        if c == '\u{1b}' {
            if j + 1 >= cs.len() {
                return j + 1;
            }
            assert(cs@.skip(j as int)[1] == cs@[j + 1]);
            assert(cs@.skip(j as int).skip(2) =~= cs@.skip(j + 2));
            if cs[j + 1] == '\\' {
                return j + 2;
            }
            j += 2;
        } else {
            j += 1;
        }
    }
    assert(cs@.skip(j as int).len() == 0);
    j
}

/// Strip ANSI/OSC/CSI escape sequences from `text`, returning the
/// escape-free remainder — `Cow::Borrowed` when nothing was stripped,
/// `Cow::Owned` otherwise.
///
/// Two sequence kinds are removed:
///
/// * **CSI** — the introducer `ESC [` or the C1 CSI character `U+009B`,
///   followed by any run of characters up to and including the first final
///   byte in `0x40..=0x7E`.
/// * **OSC** — the introducer `ESC ]`, followed by any characters up to and
///   including the first terminator: BEL (`0x07`), ST as `ESC \`, or the C1
///   ST character `U+009C`. A bare `ESC` inside the body that is not
///   followed by `\` is a body character (together with the character after
///   it).
///
/// A sequence truncated at the end of the input is stripped to the end of
/// the input. Everything else is kept as-is, including a lone `ESC` and all
/// other C1 control characters.
pub fn strip_escapes(text: &str) -> (r: Cow<'_, str>)
    ensures
        r@ == strip_spec(text@),
        (r is Borrowed) == escape_free(text@),
{
    let cs = chars_of(text);
    let mut out: Vec<char> = Vec::new();
    let mut stripped = false;
    let mut i: usize = 0;
    assert(cs@.skip(0) =~= cs@);
    assert(out@ + strip_spec(cs@) =~= strip_spec(cs@));
    while i < cs.len()
        invariant
            i <= cs@.len(),
            cs@ == text@,
            strip_spec(cs@) == out@ + strip_spec(cs@.skip(i as int)),
            !stripped ==> out@ == cs@.take(i as int),
            !stripped ==> (forall|k: int| 0 <= k < i ==> !sequence_at(cs@, k)),
            stripped ==> !escape_free(cs@),
        decreases cs@.len() - i,
    {
        let ghost rest = cs@.skip(i as int);
        let c = cs[i];
        assert(rest[0] == c);
        if c == '\u{1b}' && i + 1 < cs.len() && (cs[i + 1] == '[' || cs[i + 1] == ']') {
            assert(rest[1] == cs@[i + 1]);
            assert(rest.skip(2) =~= cs@.skip(i + 2));
            assert(sequence_at(cs@, i as int));
            let end = if cs[i + 1] == '[' { csi_end(&cs, i + 2) } else { osc_end(&cs, i + 2) };
            stripped = true;
            i = end;
        } else if c == '\u{9b}' {
            assert(rest.skip(1) =~= cs@.skip(i + 1));
            assert(sequence_at(cs@, i as int));
            let end = csi_end(&cs, i + 1);
            stripped = true;
            i = end;
        } else {
            assert(rest.skip(1) =~= cs@.skip(i + 1));
            assert(!sequence_at(cs@, i as int));
            out.push(c);
            assert(strip_spec(rest) == seq![c] + strip_spec(rest.skip(1)));
            assert(out@ + strip_spec(cs@.skip(i + 1)) =~= (out@.drop_last() + seq![c]) + strip_spec(cs@.skip(i + 1)));
            proof {
                if !stripped {
                    assert(out@ =~= cs@.take(i + 1));
                }
            }
            i += 1;
        }
    }
    assert(cs@.skip(i as int) =~= Seq::<char>::empty());
    assert(out@ + Seq::<char>::empty() =~= out@);
    if !stripped {
        assert(out@ =~= cs@);
        Cow::Borrowed(text)
    } else {
        let mut s = String::new();
        let mut k: usize = 0;
        while k < out.len()
            invariant
                k <= out@.len(),
                s@ == out@.take(k as int),
            decreases out@.len() - k,
        {
            push_char(&mut s, out[k]);
            k += 1;
            assert(s@ =~= out@.take(k as int));
        }
        assert(out@.take(out@.len() as int) =~= out@);
        Cow::Owned(s)
    }
}

// ---------------------------------------------------------------------------
// Grapheme clusters
// ---------------------------------------------------------------------------

/// The extended grapheme clusters (UAX #29) of a text, in order.
pub uninterp spec fn grapheme_clusters(text: Seq<char>) -> Seq<Seq<char>>;

/// `UnicodeSegmentation::graphemes(text, true)` from `unicode-segmentation`:
/// the extended grapheme clusters of `text`. The iterator yields consecutive
/// non-empty slices from the start of the text to its end, so the clusters
/// are non-empty and concatenate back to the text.
#[verifier::external_body]
fn graphemes_of(text: &str) -> (v: Vec<&str>)
    ensures
        v@.len() == grapheme_clusters(text@).len(),
        forall|i: int| 0 <= i < v@.len() ==> (#[trigger] v@[i])@ == grapheme_clusters(text@)[i],
        v@.map_values(|p: &str| p@).flatten() == text@,
        forall|i: int| 0 <= i < v@.len() ==> (#[trigger] v@[i])@.len() > 0,
{
    text.graphemes(true).collect()
}

/// One grapheme cluster: its text and its display width in terminal columns.
#[derive(Debug, Clone, Copy, PartialEq, Eq)]
pub struct Cluster<'a> {
    /// The cluster's full text.
    pub text: &'a str,
    /// Display width in columns: 1, 2, or 0 (a lone zero-width mark).
    pub width: u8,
}

impl<'a> Cluster<'a> {
    /// The cluster's lead character (the first char of its text), or NUL for
    /// an empty text.
    pub fn lead(&self) -> (c: char)
        ensures
            c == (if self.text@.len() > 0 { self.text@[0] } else { '\0' }),
    {
        let cs = chars_of(self.text);
        if cs.len() > 0 { cs[0] } else { '\0' }
    }

    /// The full symbol a cell must carry for this cluster: `Some(text)` for
    /// a multi-char cluster, `None` for a single-char cluster.
    pub fn symbol(&self) -> (s: Option<String>)
        ensures
            opt_str_view(s) == (if self.text@.len() > 1 { Some(self.text@) } else { None }),
    {
        let cs = chars_of(self.text);
        if cs.len() > 1 { Some(self.text.to_owned()) } else { None }
    }
}

/// The sum of the display widths of a character sequence.
pub open spec fn sum_widths(s: Seq<char>) -> int
    decreases s.len(),
{
    if s.len() == 0 {
        0
    } else {
        char_width_spec(s[0]) + sum_widths(s.skip(1))
    }
}

/// The display width of one grapheme cluster: the sum of its visible
/// characters' widths, clamped to 2.
pub open spec fn cluster_width_spec(s: Seq<char>) -> u8 {
    let w = sum_widths(strip_spec(s));
    if w >= 2 { 2 } else { w as u8 }
}

/// Escape sequences are invisible to measurement: a string measures like
/// its escape-stripped form wherever stripping is complete in one pass
/// (stripping the stripped form changes nothing more).
pub proof fn escapes_measure_as_invisible(s: Seq<char>)
    requires
        strip_spec(strip_spec(s)) == strip_spec(s),
    ensures
        cluster_width_spec(s) == cluster_width_spec(strip_spec(s)),
{
}

proof fn lemma_sum_widths_nonneg(s: Seq<char>)
    ensures
        sum_widths(s) >= 0,
    decreases s.len(),
{
    if s.len() > 0 {
        lemma_sum_widths_nonneg(s.skip(1));
    }
}

/// A grapheme cluster is at most two columns wide.
pub proof fn lemma_cluster_width_at_most_two(s: Seq<char>)
    ensures
        cluster_width_spec(s) <= 2,
{
    lemma_sum_widths_nonneg(strip_spec(s));
}

/// The display width of one grapheme cluster in terminal columns: the sum of
/// its member characters' [`char_width`]s, clamped to 2. Escape sequences
/// are invisible: they are stripped before measuring.
pub fn cluster_width(cluster: &str) -> (w: u8)
    ensures
        w == cluster_width_spec(cluster@),
        w <= 2,
{
    let stripped = strip_escapes(cluster);
    let cs = match &stripped {
        Cow::Borrowed(b) => chars_of(b),
        Cow::Owned(o) => chars_of(o.as_str()),
    };
    let ghost s = cs@;
    let mut acc: u8 = 0;
    let mut i = cs.len();
    // Sum from the back so the running total matches the recursive sum of a
    // suffix; the total is clamped at 2 as soon as it reaches it.
    while i > 0
        invariant
            i <= s.len(),
            s == cs@,
            acc <= 2,
            acc == (if sum_widths(s.skip(i as int)) >= 2 { 2 } else { sum_widths(s.skip(i as int)) }),
        decreases i,
    {
        i -= 1;
        let c = cs[i];
        let cw = char_width(c);
        assert(s.skip(i as int)[0] == c);
        assert(s.skip(i as int).skip(1) =~= s.skip(i + 1));
        proof { lemma_sum_widths_nonneg(s.skip(i + 1)); }
        let sum: u8 = acc + cw;
        acc = if sum >= 2 { 2 } else { sum };
    }
    assert(s.skip(0) =~= s);
    proof { lemma_sum_widths_nonneg(s); }
    acc
}

/// The extended grapheme clusters of `text` (UAX #29), each paired with its
/// display width. The clusters are non-empty, at most two columns wide, and
/// concatenate back to the text. Callers strip escape sequences first (see
/// [`strip_escapes`]).
pub fn clusters(text: &str) -> (v: Vec<Cluster<'_>>)
    ensures
        v@.len() == grapheme_clusters(text@).len(),
        forall|i: int| 0 <= i < v@.len() ==> {
            &&& (#[trigger] v@[i]).text@ == grapheme_clusters(text@)[i]
            &&& v@[i].width == cluster_width_spec(grapheme_clusters(text@)[i])
            &&& v@[i].text@.len() > 0
            &&& v@[i].width <= 2
        },
        v@.map_values(|c: Cluster<'_>| c.text@).flatten() == text@,
{
    let pieces = graphemes_of(text);
    let ghost pv = pieces@.map_values(|p: &str| p@);
    let mut v: Vec<Cluster<'_>> = Vec::new();
    let mut i: usize = 0;
    while i < pieces.len()
        invariant
            i <= pieces@.len(),
            pieces@.len() == grapheme_clusters(text@).len(),
            forall|j: int| 0 <= j < pieces@.len() ==> (#[trigger] pieces@[j])@ == grapheme_clusters(text@)[j],
            v@.len() == i,
            forall|j: int| 0 <= j < pieces@.len() ==> (#[trigger] pieces@[j])@.len() > 0,
            forall|j: int| 0 <= j < i ==> {
                &&& (#[trigger] v@[j]).text@ == grapheme_clusters(text@)[j]
                &&& v@[j].width == cluster_width_spec(grapheme_clusters(text@)[j])
                &&& v@[j].text@ == pieces@[j]@
                &&& v@[j].text@.len() > 0
                &&& v@[j].width <= 2
            },
        decreases pieces@.len() - i,
    {
        let g = pieces[i];
        v.push(Cluster { text: g, width: cluster_width(g) });
        i += 1;
    }
    assert(v@.map_values(|c: Cluster<'_>| c.text@) =~= pv);
    v
}

// ---------------------------------------------------------------------------
// Cells
// ---------------------------------------------------------------------------

/// A single cell of a [`Buffer`](crate::buffer::Buffer): the lead character of
/// the cluster it holds, the cluster's full symbol when it spans more than one
/// character, plus its style and its display width in terminal columns.
///
/// Width is `1` for ordinary characters, `2` for wide lead clusters, and `0`
/// for the masked continuation cell that follows a 2-column cluster.
#[derive(Debug, Eq, Hash)]
pub struct Cell {
    /// The lead character of the cluster (`'\0'` for masked continuation
    /// cells).
    pub ch: char,
    /// The cluster's full symbol string for multi-char clusters; `None` for
    /// single-char clusters and masked cells.
    pub symbol: Option<String>,
    /// The visual style of the cell.
    pub style: Style,
    /// Display width in columns: 0 (mask), 1, or 2.
    pub width: u8,
}

/// The mathematical value of a [`Cell`].
pub struct CellView {
    pub ch: char,
    pub symbol: Option<Seq<char>>,
    pub style: StyleView,
    pub width: u8,
}

impl View for Cell {
    type V = CellView;

    open spec fn view(&self) -> CellView {
        CellView { ch: self.ch, symbol: opt_str_view(self.symbol), style: self.style@, width: self.width }
    }
}

/// The view of the blank default cell (an unstyled single-width space).
pub open spec fn blank_cell() -> CellView {
    CellView { ch: ' ', symbol: None, style: plain_style(), width: 1 }
}

impl Clone for Cell {
    fn clone(&self) -> (c: Self)
        ensures
            c@ == self@,
    {
        Cell {
            ch: self.ch,
            symbol: clone_opt_string(&self.symbol),
            style: self.style.clone(),
            width: self.width,
        }
    }
}

impl PartialEq for Cell {
    fn eq(&self, other: &Self) -> (r: bool) {
        self.ch == other.ch && opt_string_eq(&self.symbol, &other.symbol) && self.style == other.style
            && self.width == other.width
    }
}

impl vstd::std_specs::cmp::PartialEqSpecImpl for Cell {
    open spec fn obeys_eq_spec() -> bool {
        true
    }

    open spec fn eq_spec(&self, other: &Self) -> bool {
        self@ == other@
    }
}

impl Default for Cell {
    /// A blank, unstyled, single-width cell (space).
    fn default() -> (c: Self)
        ensures
            c@ == blank_cell(),
    {
        Cell { ch: ' ', symbol: None, style: Style::new(), width: 1 }
    }
}

impl Cell {
    /// A blank, unstyled single-width cell holding `ch`.
    pub fn new(ch: char) -> (c: Self)
        ensures
            c@ == (CellView { ch, symbol: None, style: plain_style(), width: 1 }),
    {
        Cell { ch, symbol: None, style: Style::new(), width: 1 }
    }

    /// A single-width cell with an explicit style.
    pub fn styled(ch: char, style: Style) -> (c: Self)
        ensures
            c@ == (CellView { ch, symbol: None, style: style@, width: 1 }),
    {
        Cell { ch, symbol: None, style, width: 1 }
    }

    /// The masked continuation cell that follows a 2-column cluster: zero
    /// width, NUL content.
    pub fn mask(style: Style) -> (c: Self)
        ensures
            c@ == (CellView { ch: '\0', symbol: None, style: style@, width: 0 }),
    {
        Cell { ch: '\0', symbol: None, style, width: 0 }
    }

    /// Whether this is a zero-width continuation / masked cell.
    pub fn is_masked(&self) -> (b: bool)
        ensures
            b == (self.width == 0),
    {
        self.width == 0
    }

    /// The full symbol this cell paints: the cluster's text for a multi-char
    /// cluster, otherwise the single character.
    pub fn symbol_str(&self) -> (s: Cow<'_, str>)
        ensures
            s@ == (match opt_str_view(self.symbol) {
                Some(t) => t,
                None => seq![self.ch],
            }),
    {
        match &self.symbol {
            Some(symbol) => Cow::Borrowed(symbol.as_str()),
            None => {
                let mut s = String::new();
                push_char(&mut s, self.ch);
                assert(s@ =~= seq![self.ch]);
                Cow::Owned(s)
            },
        }
    }
}

/// A single cell update produced by [`diff`](crate::buffer::diff).
///
/// For a 2-column cluster the update set contains the lead cell (`width ==
/// 2`, `masked == false`) followed by the masked neighbor cell (`width == 0`,
/// `masked == true`) when that neighbor changed.
#[derive(Debug, Eq, Hash)]
pub struct CellUpdate {
    /// Column of the cell.
    pub x: u16,
    /// Row of the cell.
    pub y: u16,
    /// Lead character of the cluster (`'\0'` for masked continuation cells).
    pub ch: char,
    /// The cluster's full symbol string for multi-char clusters.
    pub symbol: Option<String>,
    /// Style to apply.
    pub style: Style,
    /// Display width of the cluster (0 = masked/continuation).
    pub width: u8,
    /// True for the zero-width continuation cell of a 2-column cluster (or a
    /// standalone zero-width cell); the flusher masks the column.
    pub masked: bool,
}

/// The mathematical value of a [`CellUpdate`].
pub struct CellUpdateView {
    pub x: u16,
    pub y: u16,
    pub ch: char,
    pub symbol: Option<Seq<char>>,
    pub style: StyleView,
    pub width: u8,
    pub masked: bool,
}

impl View for CellUpdate {
    type V = CellUpdateView;

    open spec fn view(&self) -> CellUpdateView {
        CellUpdateView {
            x: self.x,
            y: self.y,
            ch: self.ch,
            symbol: opt_str_view(self.symbol),
            style: self.style@,
            width: self.width,
            masked: self.masked,
        }
    }
}

impl Clone for CellUpdate {
    fn clone(&self) -> (c: Self)
        ensures
            c@ == self@,
    {
        CellUpdate {
            x: self.x,
            y: self.y,
            ch: self.ch,
            symbol: clone_opt_string(&self.symbol),
            style: self.style.clone(),
            width: self.width,
            masked: self.masked,
        }
    }
}

impl PartialEq for CellUpdate {
    fn eq(&self, other: &Self) -> (r: bool) {
        self.x == other.x && self.y == other.y && self.ch == other.ch
            && opt_string_eq(&self.symbol, &other.symbol) && self.style == other.style
            && self.width == other.width && self.masked == other.masked
    }
}

impl vstd::std_specs::cmp::PartialEqSpecImpl for CellUpdate {
    open spec fn obeys_eq_spec() -> bool {
        true
    }

    open spec fn eq_spec(&self, other: &Self) -> bool {
        self@ == other@
    }
}

} // verus!
