//! Token highlighting: tree-sitter highlight captures mapped to styled
//! spans.
//!
//! [`highlight`] parses source with a grammar's tree-sitter parser, runs the
//! grammar's highlight queries, maps capture names (`@keyword`, `@string`,
//! `@comment`, `@function.macro`, ...) onto a small One-Dark palette, and
//! folds the captures into a *complete* span stream: every byte of the
//! source is covered (unstyled gaps become default-style spans) and adjacent
//! spans with equal style merge, so the concatenated span texts reconstruct
//! the source exactly. Overlapping captures resolve to the most specific —
//! smallest — covering capture.

use vstd::prelude::*;

use tree_sitter::{InputEdit, Language as TsLanguage, Parser, Point, Query, QueryCursor, StreamingIterator, Tree};

use crate::color::Color;
use crate::style::{Modifiers, Style, StyleView, plain_style};
use crate::text::{chars_of, str_eq, string_of_range};
pub use crate::scene::{Span, SpanView, span_views};

verus! {

broadcast use vstd::string::group_string_axioms;

// ---------------------------------------------------------------------------
// Languages
// ---------------------------------------------------------------------------

/// The languages this module can highlight.
#[derive(Debug, Clone, Copy, PartialEq, Eq, Structural)]
pub enum Language {
    /// The Rust grammar.
    Rust,
    /// The TypeScript grammar (non-JSX).
    TypeScript,
    /// The TSX grammar (JSX-flavored TypeScript).
    Tsx,
    /// The JavaScript grammar.
    JavaScript,
    /// The JSON grammar.
    Json,
    /// The Bash / POSIX shell grammar.
    Shell,
}

/// ASCII lowercase of one character.
pub open spec fn ascii_lower(c: char) -> char {
    if 'A' <= c <= 'Z' { ((c as u32) + 32) as char } else { c }
}

/// ASCII lowercase of a text (other characters unchanged).
pub open spec fn ascii_lowercase(s: Seq<char>) -> Seq<char> {
    s.map_values(|c: char| ascii_lower(c))
}

fn to_ascii_lowercase(s: &str) -> (r: String)
    ensures
        r@ == ascii_lowercase(s@),
{
    let cs = chars_of(s);
    let mut out: Vec<char> = Vec::new();
    let mut i: usize = 0;
    while i < cs.len()
        invariant
            i <= cs@.len(),
            cs@ == s@,
            out@ == ascii_lowercase(cs@.take(i as int)),
        decreases cs@.len() - i,
    {
        let c = cs[i];
        let l = if 'A' <= c && c <= 'Z' { ((c as u32) + 32) as u8 as char } else { c };
        assert(l == ascii_lower(c));
        out.push(l);
        i += 1;
        assert(out@ =~= ascii_lowercase(cs@.take(i as int)));
    }
    assert(cs@.take(cs@.len() as int) =~= cs@);
    crate::text::string_of(&out)
}

/// The language a Markdown fence name names, ignoring ASCII case.
pub open spec fn fence_language(name: Seq<char>) -> Option<Language> {
    let n = ascii_lowercase(name);
    if n == "rust"@ || n == "rs"@ {
        Some(Language::Rust)
    } else if n == "typescript"@ || n == "ts"@ {
        Some(Language::TypeScript)
    } else if n == "tsx"@ {
        Some(Language::Tsx)
    } else if n == "javascript"@ || n == "js"@ || n == "jsx"@ {
        Some(Language::JavaScript)
    } else if n == "json"@ {
        Some(Language::Json)
    } else if n == "bash"@ || n == "shell"@ || n == "sh"@ || n == "zsh"@ {
        Some(Language::Shell)
    } else {
        None
    }
}

impl Language {
    /// Resolve a Markdown fence info string (the token after the backticks)
    /// to a language, ignoring ASCII case. `None` for unknown names.
    pub fn from_fence_name(name: &str) -> (r: Option<Self>)
        ensures
            r == fence_language(name@),
    {
        let lower = to_ascii_lowercase(name);
        let n = lower.as_str();
        if str_eq(n, "rust") || str_eq(n, "rs") {
            Some(Language::Rust)
        } else if str_eq(n, "typescript") || str_eq(n, "ts") {
            Some(Language::TypeScript)
        } else if str_eq(n, "tsx") {
            Some(Language::Tsx)
        } else if str_eq(n, "javascript") || str_eq(n, "js") || str_eq(n, "jsx") {
            Some(Language::JavaScript)
        } else if str_eq(n, "json") {
            Some(Language::Json)
        } else if str_eq(n, "bash") || str_eq(n, "shell") || str_eq(n, "sh") || str_eq(n, "zsh") {
            Some(Language::Shell)
        } else {
            None
        }
    }

    /// The grammar's bundled highlight queries, in application order (see
    /// [`queries_spec`]).
    pub fn highlights_queries(self) -> (v: Vec<QuerySource>)
        ensures
            v@ == queries_spec(self),
    {
        match self {
            Language::Rust => vec![QuerySource::Rust],
            Language::TypeScript | Language::Tsx => vec![QuerySource::JavaScript, QuerySource::TypeScript],
            Language::JavaScript => vec![QuerySource::JavaScript],
            Language::Json => vec![QuerySource::Json],
            Language::Shell => vec![QuerySource::Bash],
        }
    }
}

/// A grammar crate's bundled highlight query.
#[derive(Debug, Clone, Copy, PartialEq, Eq, Structural)]
pub enum QuerySource {
    /// The Rust grammar's highlights query.
    Rust,
    /// The JavaScript grammar's highlight query.
    JavaScript,
    /// The TypeScript grammar's highlights query.
    TypeScript,
    /// The JSON grammar's highlights query.
    Json,
    /// The Bash grammar's highlight query.
    Bash,
}

/// The highlight queries a language applies, in order: TypeScript and TSX
/// run the JavaScript query first and their own second, so the more
/// specific TypeScript captures win on a tie.
pub open spec fn queries_spec(l: Language) -> Seq<QuerySource> {
    match l {
        Language::Rust => seq![QuerySource::Rust],
        Language::TypeScript | Language::Tsx => seq![QuerySource::JavaScript, QuerySource::TypeScript],
        Language::JavaScript => seq![QuerySource::JavaScript],
        Language::Json => seq![QuerySource::Json],
        Language::Shell => seq![QuerySource::Bash],
    }
}

// ---------------------------------------------------------------------------
// Capture styles
// ---------------------------------------------------------------------------

/// A palette entry.
pub enum Tone {
    Keyword,
    Str,
    Comment,
    Number,
    Function,
    Type,
    Variable,
    Builtin,
    Plain,
}

/// The One-Dark RGB of a palette entry.
pub open spec fn tone_rgb(t: Tone) -> (u8, u8, u8) {
    match t {
        Tone::Keyword => (198, 120, 221),
        Tone::Str => (152, 195, 121),
        Tone::Comment => (127, 132, 142),
        Tone::Number => (209, 154, 102),
        Tone::Function => (97, 175, 239),
        Tone::Type => (229, 192, 123),
        Tone::Variable => (224, 108, 117),
        Tone::Builtin => (86, 182, 194),
        Tone::Plain => (0, 0, 0),
    }
}

/// The style of a palette entry: its foreground color (comments are also
/// italic); the plain style for `Plain`.
pub open spec fn tone_style(t: Tone) -> StyleView {
    match t {
        Tone::Plain => plain_style(),
        Tone::Comment => StyleView {
            fg: Color::Rgb(127, 132, 142),
            modifiers: 4u16,
            ..plain_style()
        },
        _ => StyleView {
            fg: Color::Rgb(tone_rgb(t).0, tone_rgb(t).1, tone_rgb(t).2),
            ..plain_style()
        },
    }
}

/// The name before the first `.` (the whole name when there is none).
pub open spec fn base_name(name: Seq<char>) -> Seq<char> {
    match crate::probe::index_of(name, '.', 0) {
        Some(k) => name.take(k),
        None => name,
    }
}

/// The palette entry of a capture name: full names first; unknown dotted
/// names fall back to their base name before the first dot; punctuation and
/// unknown names are plain.
pub open spec fn capture_tone(name: Seq<char>) -> Tone {
    if name == "comment"@ || name == "comment.documentation"@ {
        Tone::Comment
    } else if name == "string"@ || name == "string.special.key"@ || name == "escape"@ || name == "embedded"@ {
        Tone::Str
    } else if name == "number"@ || name == "constant"@ || name == "constant.builtin"@ {
        Tone::Number
    } else if name == "function"@ || name == "function.call"@ || name == "function.method"@ || name == "function.macro"@ {
        Tone::Function
    } else if name == "type"@ || name == "type.builtin"@ || name == "constructor"@ {
        Tone::Type
    } else if name == "property"@ || name == "variable.builtin"@ || name == "variable.parameter"@
        || name == "label"@ || name == "attribute"@ {
        Tone::Variable
    } else if name == "keyword"@ {
        Tone::Keyword
    } else if name == "operator"@ {
        Tone::Builtin
    } else {
        let b = base_name(name);
        if b == "keyword"@ {
            Tone::Keyword
        } else if b == "string"@ {
            Tone::Str
        } else if b == "comment"@ {
            Tone::Comment
        } else if b == "function"@ {
            Tone::Function
        } else if b == "type"@ {
            Tone::Type
        } else if b == "number"@ || b == "constant"@ {
            Tone::Number
        } else if b == "operator"@ {
            Tone::Builtin
        } else if b == "variable"@ || b == "property"@ || b == "field"@ {
            Tone::Variable
        } else if b == "constructor"@ {
            Tone::Type
        } else if b == "escape"@ || b == "embedded"@ {
            Tone::Str
        } else {
            Tone::Plain
        }
    }
}

/// A foreground color as a style.
pub fn fg(r: u8, g: u8, b: u8) -> (s: Style)
    ensures
        s@ == (StyleView { fg: Color::Rgb(r, g, b), ..plain_style() }),
{
    Style::new().fg(Color::Rgb(r, g, b))
}

fn tone_of(t: Tone) -> (s: Style)
    ensures
        s@ == tone_style(t),
{
    match t {
        Tone::Keyword => fg(198, 120, 221),
        Tone::Str => fg(152, 195, 121),
        Tone::Comment => {
            assert((0u16 | 4u16) == 4u16) by (bit_vector);
            fg(127, 132, 142).add_modifier(Modifiers::italic())
        },
        Tone::Number => fg(209, 154, 102),
        Tone::Function => fg(97, 175, 239),
        Tone::Type => fg(229, 192, 123),
        Tone::Variable => fg(224, 108, 117),
        Tone::Builtin => fg(86, 182, 194),
        Tone::Plain => Style::new(),
    }
}

fn name_in(n: &str, a: &str, b: &str) -> (r: bool)
    ensures
        r == (n@ == a@ || n@ == b@),
{
    str_eq(n, a) || str_eq(n, b)
}

fn base_tone(b: &str) -> (t: Tone)
    ensures
        t == (if b@ == "keyword"@ { Tone::Keyword } else if b@ == "string"@ { Tone::Str }
            else if b@ == "comment"@ { Tone::Comment } else if b@ == "function"@ { Tone::Function }
            else if b@ == "type"@ { Tone::Type } else if b@ == "number"@ || b@ == "constant"@ { Tone::Number }
            else if b@ == "operator"@ { Tone::Builtin }
            else if b@ == "variable"@ || b@ == "property"@ || b@ == "field"@ { Tone::Variable }
            else if b@ == "constructor"@ { Tone::Type } else if b@ == "escape"@ || b@ == "embedded"@ { Tone::Str }
            else { Tone::Plain }),
{
    if str_eq(b, "keyword") {
        Tone::Keyword
    } else if str_eq(b, "string") {
        Tone::Str
    } else if str_eq(b, "comment") {
        Tone::Comment
    } else if str_eq(b, "function") {
        Tone::Function
    } else if str_eq(b, "type") {
        Tone::Type
    } else if name_in(b, "number", "constant") {
        Tone::Number
    } else if str_eq(b, "operator") {
        Tone::Builtin
    } else if name_in(b, "variable", "property") || str_eq(b, "field") {
        Tone::Variable
    } else if str_eq(b, "constructor") {
        Tone::Type
    } else if name_in(b, "escape", "embedded") {
        Tone::Str
    } else {
        Tone::Plain
    }
}

fn capture_tone_of(name: &str) -> (t: Tone)
    ensures
        t == capture_tone(name@),
{
    if name_in(name, "comment", "comment.documentation") {
        Tone::Comment
    } else if name_in(name, "string", "string.special.key") || name_in(name, "escape", "embedded") {
        Tone::Str
    } else if name_in(name, "number", "constant") || str_eq(name, "constant.builtin") {
        Tone::Number
    } else if name_in(name, "function", "function.call") || name_in(name, "function.method", "function.macro") {
        Tone::Function
    } else if name_in(name, "type", "type.builtin") || str_eq(name, "constructor") {
        Tone::Type
    } else if name_in(name, "property", "variable.builtin") || name_in(name, "variable.parameter", "label")
        || str_eq(name, "attribute") {
        Tone::Variable
    } else if str_eq(name, "keyword") {
        Tone::Keyword
    } else if str_eq(name, "operator") {
        Tone::Builtin
    } else {
        let cs = chars_of(name);
        let mut k: usize = 0;
        while k < cs.len() && cs[k] != '.'
            invariant
                k <= cs@.len(),
                cs@ == name@,
                crate::probe::index_of(cs@, '.', 0) == crate::probe::index_of(cs@, '.', k as int),
            decreases cs@.len() - k,
        {
            k += 1;
        }
        let base = string_of_range(&cs, 0, k);
        assert(k == cs@.len() ==> base@ =~= name@);
        assert(base@ =~= base_name(name@));
        base_tone(base.as_str())
    }
}

/// The style of a capture name (see [`capture_tone`]).
pub open spec fn capture_style(name: Seq<char>) -> StyleView {
    tone_style(capture_tone(name))
}

/// Map a tree-sitter capture name (e.g. `"keyword"`, `"function.macro"`,
/// `"punctuation.bracket"`) to a style.
pub fn style_for_capture(name: &str) -> (s: Style)
    ensures
        s@ == capture_style(name@),
{
    tone_of(capture_tone_of(name))
}

// ---------------------------------------------------------------------------
// Spans
// ---------------------------------------------------------------------------

/// A capture: a byte range of the source and its style.
pub type Capture = (usize, usize, Style);

/// The value of a capture.
pub type CaptureView = (int, int, StyleView);

/// The values of a sequence of captures.
pub open spec fn capture_views(v: Seq<Capture>) -> Seq<CaptureView> {
    v.map_values(|c: Capture| (c.0 as int, c.1 as int, c.2@))
}

/// A raw capture as tree-sitter reports it: its node's byte range and its
/// capture name.
pub type RawCaptureView = (usize, usize, Seq<char>);

/// The values of a list of raw captures.
pub open spec fn raw_views(v: Seq<(usize, usize, String)>) -> Seq<RawCaptureView> {
    v.map_values(|r: (usize, usize, String)| (r.0, r.1, r.2@))
}

/// Raw captures styled: each capture name mapped to its style, the
/// unstyled (plain) ones dropped, in order.
pub open spec fn styled_raw(raw: Seq<RawCaptureView>) -> Seq<CaptureView>
    decreases raw.len(),
{
    if raw.len() == 0 {
        Seq::empty()
    } else {
        let rest = styled_raw(raw.drop_last());
        let r = raw.last();
        if capture_style(r.2) == plain_style() {
            rest
        } else {
            rest.push((r.0 as int, r.1 as int, capture_style(r.2)))
        }
    }
}

/// The styled captures of one raw capture list per query, in query order.
pub open spec fn styled_all(raws: Seq<Seq<RawCaptureView>>) -> Seq<CaptureView>
    decreases raws.len(),
{
    if raws.len() == 0 {
        Seq::empty()
    } else {
        styled_all(raws.drop_last()) + styled_raw(raws.last())
    }
}

/// The UTF-8 length of a character.
pub open spec fn utf8_len(c: char) -> int {
    if (c as u32) < 0x80 { 1 } else if (c as u32) < 0x800 { 2 } else if (c as u32) < 0x10000 { 3 } else { 4 }
}

/// The UTF-8 length of a text.
pub open spec fn byte_len(s: Seq<char>) -> int
    decreases s.len(),
{
    if s.len() == 0 { 0 } else { byte_len(s.drop_last()) + utf8_len(s.last()) }
}

/// The byte offset of char index `j`.
pub open spec fn offset_of(s: Seq<char>, j: int) -> int {
    byte_len(s.take(j))
}

/// Whether byte offset `b` falls on a character boundary of `s`.
pub open spec fn is_char_offset(s: Seq<char>, b: int) -> bool {
    exists|j: int| 0 <= j <= s.len() && #[trigger] offset_of(s, j) == b
}

/// Whether char index `j` is a segment boundary: the source's start or
/// end, or where some capture starts or ends.
pub open spec fn is_bound(s: Seq<char>, caps: Seq<CaptureView>, j: int) -> bool {
    j == 0 || j == s.len()
        || exists|k: int| 0 <= k < caps.len() && ((#[trigger] caps[k]).0 == offset_of(s, j) || caps[k].1 == offset_of(s, j))
}

/// Whether a capture spans the byte range `a..b`.
pub open spec fn covers(c: CaptureView, a: int, b: int) -> bool {
    c.0 <= a && c.1 >= b
}

/// The smallest capture among the first `k` that spans `a..b` (a later
/// capture of equal size wins), with its size.
pub open spec fn best_upto(caps: Seq<CaptureView>, a: int, b: int, k: int) -> Option<(int, StyleView)>
    decreases k,
{
    if k <= 0 || k > caps.len() {
        None
    } else {
        let prev = best_upto(caps, a, b, k - 1);
        let c = caps[k - 1];
        let smaller = match prev { Some((l, _)) => c.1 - c.0 <= l, None => true };
        if covers(c, a, b) && smaller {
            Some((c.1 - c.0, c.2))
        } else {
            prev
        }
    }
}

/// The style of the byte range `a..b`: the most specific covering
/// capture's, else the plain style.
pub open spec fn window_style(caps: Seq<CaptureView>, a: int, b: int) -> StyleView {
    match best_upto(caps, a, b, caps.len() as int) {
        Some((_, st)) => st,
        None => plain_style(),
    }
}

/// Append a segment, merging it into the last span when the styles match.
pub open spec fn emit(sp: Seq<SpanView>, text: Seq<char>, style: StyleView) -> Seq<SpanView> {
    if sp.len() > 0 && sp.last().1 == style {
        sp.update(sp.len() - 1, (sp.last().0 + text, style))
    } else {
        sp.push((text, style))
    }
}

/// The spans of the segments that end at or before char index `j`, and
/// where the last of them ends.
pub open spec fn seg_state(s: Seq<char>, caps: Seq<CaptureView>, j: int) -> (Seq<SpanView>, int)
    decreases j,
{
    if j <= 0 {
        (Seq::empty(), 0)
    } else {
        let (sp, p) = seg_state(s, caps, j - 1);
        if is_bound(s, caps, j) {
            (emit(sp, s.subrange(p, j), window_style(caps, offset_of(s, p), offset_of(s, j))), j)
        } else {
            (sp, p)
        }
    }
}

/// The complete span stream of a source: the segments between consecutive
/// boundaries, each styled by its most specific covering capture, with
/// equal-style neighbors merged.
pub open spec fn segments_spec(s: Seq<char>, caps: Seq<CaptureView>) -> Seq<SpanView> {
    seg_state(s, caps, s.len() as int).0
}

proof fn lemma_byte_len_prefix(s: Seq<char>, j: int)
    requires
        0 <= j <= s.len(),
    ensures
        0 <= byte_len(s.take(j)) <= byte_len(s),
        j < s.len() ==> byte_len(s.take(j)) < byte_len(s.take(j + 1)),
    decreases s.len() - j,
{
    if j < s.len() {
        assert(s.take(j + 1).drop_last() =~= s.take(j));
        lemma_byte_len_prefix(s, j + 1);
        lemma_byte_len_nonneg(s.take(j));
    } else {
        assert(s.take(j) =~= s);
        lemma_byte_len_nonneg(s);
    }
}

proof fn lemma_byte_len_nonneg(s: Seq<char>)
    ensures
        byte_len(s) >= 0,
    decreases s.len(),
{
    if s.len() > 0 {
        lemma_byte_len_nonneg(s.drop_last());
    }
}

fn utf8_width(c: char) -> (n: usize)
    ensures
        n == utf8_len(c),
{
    let u = c as u32;
    if u < 0x80 { 1 } else if u < 0x800 { 2 } else if u < 0x10000 { 3 } else { 4 }
}

/// The byte offset of every char index (0..=len).
fn char_offsets(cs: &Vec<char>) -> (offs: Vec<usize>)
    requires
        byte_len(cs@) <= usize::MAX,
    ensures
        offs@.len() == cs@.len() + 1,
        forall|j: int| 0 <= j <= cs@.len() ==> #[trigger] offs@[j] == offset_of(cs@, j),
{
    let mut offs: Vec<usize> = Vec::new();
    offs.push(0);
    assert(cs@.take(0) =~= Seq::<char>::empty());
    let mut acc: usize = 0;
    let mut i: usize = 0;
    while i < cs.len()
        invariant
            i <= cs@.len(),
            byte_len(cs@) <= usize::MAX,
            acc == offset_of(cs@, i as int),
            offs@.len() == i + 1,
            forall|j: int| 0 <= j <= i ==> #[trigger] offs@[j] == offset_of(cs@, j),
        decreases cs@.len() - i,
    {
        proof {
            lemma_byte_len_prefix(cs@, i + 1);
            assert(cs@.take(i + 1).drop_last() =~= cs@.take(i as int));
        }
        acc = acc + utf8_width(cs[i]);
        i += 1;
        offs.push(acc);
    }
    offs
}

/// Whether char index `j` (1..=len) is a segment boundary.
fn bound_at(captures: &[Capture], offs: &Vec<usize>, j: usize, n: usize) -> (b: bool)
    requires
        1 <= j <= n,
        offs@.len() == n + 1,
    ensures
        b == (j == n || exists|k: int| 0 <= k < captures@.len()
            && ((#[trigger] captures@[k]).0 == offs@[j as int] || captures@[k].1 == offs@[j as int])),
{
    if j == n {
        return true;
    }
    let b = offs[j];
    let mut k: usize = 0;
    while k < captures.len()
        invariant
            k <= captures@.len(),
            b == offs@[j as int],
            forall|m: int| 0 <= m < k ==> (#[trigger] captures@[m]).0 != b && captures@[m].1 != b,
        decreases captures@.len() - k,
    {
        if captures[k].0 == b || captures[k].1 == b {
            assert(captures@[k as int].0 == b || captures@[k as int].1 == b);
            return true;
        }
        k += 1;
    }
    false
}

/// The style of the byte range `a..b` (see [`window_style`]).
fn style_of_window(captures: &[Capture], a: usize, b: usize) -> (st: Style)
    requires
        a < b,
    ensures
        st@ == window_style(capture_views(captures@), a as int, b as int),
{
    let ghost cv = capture_views(captures@);
    let mut best: Option<(usize, Style)> = None;
    let mut k: usize = 0;
    while k < captures.len()
        invariant
            k <= captures@.len(),
            cv == capture_views(captures@),
            a < b,
            match best_upto(cv, a as int, b as int, k as int) {
                Some((l, st)) => best matches Some(x) && x.0 == l && x.1@ == st,
                None => best is None,
            },
        decreases captures@.len() - k,
    {
        let c = &captures[k];
        if c.0 <= a && c.1 >= b {
            let len = c.1 - c.0;
            let better = match &best {
                Some(x) => len <= x.0,
                None => true,
            };
            if better {
                best = Some((len, c.2.clone()));
            }
        }
        k += 1;
    }
    match best {
        Some((_, st)) => st,
        None => Style::new(),
    }
}

/// Add a segment to the span list, merging into the last span when the
/// styles match.
fn push_segment(spans: &mut Vec<Span>, text: String, style: Style)
    ensures
        span_views(final(spans)@) == emit(span_views(old(spans)@), text@, style@),
{
    let n = spans.len();
    if n > 0 {
        let last = spans.pop().unwrap();
        if last.style == style {
            let mut t = last.text;
            t.append(text.as_str());
            spans.push(Span { text: t, style: last.style });
            assert(span_views(spans@) =~= emit(span_views(old(spans)@), text@, style@));
        } else {
            spans.push(last);
            spans.push(Span { text, style });
            assert(span_views(spans@) =~= emit(span_views(old(spans)@), text@, style@));
        }
    } else {
        spans.push(Span { text, style });
        assert(span_views(spans@) =~= emit(span_views(old(spans)@), text@, style@));
    }
}

/// Fold styled captures into a complete, merged span stream over `source`
/// (see [`segments_spec`]).
pub fn segments_from_captures(source: &str, captures: &[Capture]) -> (r: Vec<Span>)
    requires
        byte_len(source@) <= usize::MAX,
    ensures
        span_views(r@) == segments_spec(source@, capture_views(captures@)),
{
    let ghost cv = capture_views(captures@);
    let cs = chars_of(source);
    let offs = char_offsets(&cs);
    let n = cs.len();
    let mut spans: Vec<Span> = Vec::new();
    let mut prev: usize = 0;
    let mut j: usize = 0;
    assert(span_views(spans@) =~= Seq::<SpanView>::empty());
    while j < n
        invariant
            j <= n,
            n == cs@.len(),
            cs@ == source@,
            cv == capture_views(captures@),
            offs@.len() == n + 1,
            forall|i: int| 0 <= i <= n ==> #[trigger] offs@[i] == offset_of(cs@, i),
            prev <= j,
            (span_views(spans@), prev as int) == seg_state(cs@, cv, j as int),
        decreases n - j,
    {
        j += 1;
        let bound = bound_at(captures, &offs, j, n);
        proof {
            lemma_byte_len_prefix(cs@, prev as int);
            lemma_byte_len_prefix(cs@, j as int);
            if bound && j < n {
                let k = choose|k: int| 0 <= k < captures@.len()
                    && ((#[trigger] captures@[k]).0 == offs@[j as int] || captures@[k].1 == offs@[j as int]);
                assert(cv[k].0 == offset_of(cs@, j as int) || cv[k].1 == offset_of(cs@, j as int));
            }
            if is_bound(cs@, cv, j as int) && j < n {
                let k = choose|k: int| 0 <= k < cv.len()
                    && ((#[trigger] cv[k]).0 == offset_of(cs@, j as int) || cv[k].1 == offset_of(cs@, j as int));
                assert(captures@[k].0 == offs@[j as int] || captures@[k].1 == offs@[j as int]);
            }
        }
        if bound {
            let a = offs[prev];
            let b = offs[j];
            proof {
                assert(offset_of(cs@, prev as int) < offset_of(cs@, j as int)) by {
                    lemma_offsets_increase(cs@, prev as int, j as int);
                }
            }
            let style = style_of_window(captures, a, b);
            let text = string_of_range(&cs, prev, j);
            push_segment(&mut spans, text, style);
            prev = j;
        }
    }
    spans
}

proof fn lemma_offsets_increase(s: Seq<char>, p: int, j: int)
    requires
        0 <= p < j <= s.len(),
    ensures
        offset_of(s, p) < offset_of(s, j),
    decreases j - p,
{
    lemma_byte_len_prefix(s, p);
    if p + 1 < j {
        lemma_offsets_increase(s, p + 1, j);
    }
}

// ---------------------------------------------------------------------------
// Laws
// ---------------------------------------------------------------------------

/// The concatenated texts of a span sequence.
pub open spec fn concat_texts(sp: Seq<SpanView>) -> Seq<char>
    decreases sp.len(),
{
    if sp.len() == 0 { Seq::empty() } else { concat_texts(sp.drop_last()) + sp.last().0 }
}

/// Every span holds some text.
pub open spec fn spans_nonempty(sp: Seq<SpanView>) -> bool {
    forall|i: int| 0 <= i < sp.len() ==> (#[trigger] sp[i]).0.len() > 0
}

proof fn lemma_emit_nonempty(sp: Seq<SpanView>, text: Seq<char>, style: StyleView)
    requires
        spans_nonempty(sp),
        text.len() > 0,
    ensures
        spans_nonempty(emit(sp, text, style)),
{
    let e = emit(sp, text, style);
    assert forall|i: int| 0 <= i < e.len() implies (#[trigger] e[i]).0.len() > 0 by {
        if i < sp.len() && !(sp.len() > 0 && sp.last().1 == style && i == sp.len() - 1) {
            assert(e[i] == sp[i]);
        }
    }
}

/// Neighboring spans never share a style.
pub open spec fn neighbors_differ(sp: Seq<SpanView>) -> bool {
    forall|i: int| 0 <= i < sp.len() - 1 ==> (#[trigger] sp[i]).1 != sp[i + 1].1
}

proof fn lemma_emit(sp: Seq<SpanView>, text: Seq<char>, style: StyleView)
    requires
        neighbors_differ(sp),
    ensures
        concat_texts(emit(sp, text, style)) == concat_texts(sp) + text,
        neighbors_differ(emit(sp, text, style)),
{
    let e = emit(sp, text, style);
    if sp.len() > 0 && sp.last().1 == style {
        assert(e.drop_last() =~= sp.drop_last());
        assert(concat_texts(sp) == concat_texts(sp.drop_last()) + sp.last().0);
        assert(concat_texts(e) =~= concat_texts(sp) + text);
        assert forall|i: int| 0 <= i < e.len() - 1 implies (#[trigger] e[i]).1 != e[i + 1].1 by {
            assert(e[i] == sp[i]);
            if i + 1 < e.len() - 1 {
                assert(e[i + 1] == sp[i + 1]);
            }
        }
    } else {
        assert(e.drop_last() =~= sp);
        assert forall|i: int| 0 <= i < e.len() - 1 implies (#[trigger] e[i]).1 != e[i + 1].1 by {
            assert(e[i] == sp[i]);
            if i + 1 < sp.len() {
                assert(e[i + 1] == sp[i + 1]);
            }
        }
    }
}

proof fn lemma_seg_state(s: Seq<char>, caps: Seq<CaptureView>, j: int)
    requires
        0 <= j <= s.len(),
    ensures
        0 <= seg_state(s, caps, j).1 <= j,
        concat_texts(seg_state(s, caps, j).0) == s.subrange(0, seg_state(s, caps, j).1),
        neighbors_differ(seg_state(s, caps, j).0),
        spans_nonempty(seg_state(s, caps, j).0),
    decreases j,
{
    if j > 0 {
        lemma_seg_state(s, caps, j - 1);
        let (sp, p) = seg_state(s, caps, j - 1);
        if is_bound(s, caps, j) {
            lemma_emit(sp, s.subrange(p, j), window_style(caps, offset_of(s, p), offset_of(s, j)));
            lemma_emit_nonempty(sp, s.subrange(p, j), window_style(caps, offset_of(s, p), offset_of(s, j)));
            assert(s.subrange(0, p) + s.subrange(p, j) =~= s.subrange(0, j));
        }
    } else {
        assert(s.subrange(0, 0) =~= Seq::<char>::empty());
    }
}

/// The span stream is complete: the span texts, concatenated, are exactly
/// the source — every byte covered once, in order — and equal-style
/// neighbors are merged.
pub proof fn spans_reconstruct_source(s: Seq<char>, caps: Seq<CaptureView>)
    ensures
        concat_texts(segments_spec(s, caps)) == s,
        neighbors_differ(segments_spec(s, caps)),
        spans_nonempty(segments_spec(s, caps)),
        segments_spec(s, caps).len() > 0 <==> s.len() > 0,
{
    lemma_seg_state(s, caps, s.len() as int);
    if s.len() > 0 {
        assert(is_bound(s, caps, s.len() as int));
        lemma_seg_state(s, caps, s.len() - 1);
    }
    assert(s.subrange(0, s.len() as int) =~= s);
}

// ---------------------------------------------------------------------------
// tree-sitter
// ---------------------------------------------------------------------------

#[verifier::external_type_specification]
#[verifier::external_body]
pub struct ExParser(Parser);

#[verifier::external_type_specification]
#[verifier::external_body]
pub struct ExTree(Tree);

#[verifier::external_type_specification]
#[verifier::external_body]
pub struct ExQuery(Query);

#[verifier::external_type_specification]
#[verifier::external_body]
pub struct ExTsLanguage(TsLanguage);

/// A language's tree-sitter grammar.
struct Grammar {
    lang: TsLanguage,
    language: Language,
}

/// A tree-sitter parser with its language's grammar loaded.
struct LangParser {
    parser: Parser,
    language: Language,
}

/// A compiled bundled highlight query of a language.
struct CompiledQuery {
    query: Query,
    language: Language,
    source: QuerySource,
}

/// A parse tree of `text` in `language`; `fresh` when it was parsed from
/// scratch rather than re-parsed from an edited old tree.
struct ParsedTree {
    tree: Tree,
    language: Language,
    text: String,
    fresh: bool,
}

/// A parse tree edited to describe `text`: the old tree of an incremental
/// re-parse of `text`.
struct EditedTree {
    tree: Tree,
    language: Language,
    text: String,
}

/// Whether the language's bundled grammar loads into a tree-sitter parser:
/// `Parser::set_language` refuses a grammar only for an ABI version this
/// tree-sitter does not support, a fact of the grammar alone.
pub uninterp spec fn grammar_loads(language: Language) -> bool;

/// Whether a bundled highlight query compiles against the language's
/// grammar (`Query::new`), a fact of the grammar and the query text.
pub uninterp spec fn query_compiles(language: Language, source: QuerySource) -> bool;

/// What tree-sitter captures with a bundled highlight query over a fresh
/// parse (no old tree) of `text` in `language`, in the order
/// `QueryCursor::captures` yields them: each capture's node byte range and
/// capture name. A fresh parse is a function of the grammar and the text,
/// and the captures of the query text over it.
pub uninterp spec fn ts_capture_list(language: Language, query: QuerySource, text: Seq<char>) -> Seq<RawCaptureView>;

/// The language's tree-sitter grammar, from its grammar crate's language
/// function.
#[verifier::external_body]
fn ts_language(language: Language) -> (g: Grammar)
    ensures
        g.language == language,
{
    let f: tree_sitter_language::LanguageFn = match language {
        Language::Rust => tree_sitter_rust::LANGUAGE,
        Language::TypeScript => tree_sitter_typescript::LANGUAGE_TYPESCRIPT,
        Language::Tsx => tree_sitter_typescript::LANGUAGE_TSX,
        Language::JavaScript => tree_sitter_javascript::LANGUAGE,
        Language::Json => tree_sitter_json::LANGUAGE,
        Language::Shell => tree_sitter_bash::LANGUAGE,
    };
    Grammar { lang: f.into(), language }
}

/// `Parser::new` and `Parser::set_language` with the grammar: a parser
/// exactly when the grammar loads (see [`grammar_loads`]).
#[verifier::external_body]
fn ts_parser(g: &Grammar) -> (p: Option<LangParser>)
    ensures
        p is Some <==> grammar_loads(g.language),
        p matches Some(x) ==> x.language == g.language,
{
    let mut parser = Parser::new();
    match parser.set_language(&g.lang) {
        Ok(()) => Some(LangParser { parser, language: g.language }),
        Err(_) => None,
    }
}

/// tree-sitter's `Parser::parse` of the whole source, reusing an old tree
/// edited to describe this source when given. Its documentation gives
/// `None` only for a parser without a language or after a timeout or
/// cancellation, none of which these parsers have, so the parse is a tree
/// of the source.
#[verifier::external_body]
fn ts_parse(p: &mut LangParser, source: &str, base: Option<&EditedTree>) -> (t: Option<ParsedTree>)
    requires
        base matches Some(o) ==> o.language == old(p).language && o.text@ == source@,
    ensures
        final(p).language == old(p).language,
        t is Some,
        t matches Some(x) ==> x.language == old(p).language && x.text@ == source@ && x.fresh == (base is None),
{
    let tree = p.parser.parse(source, base.map(|o| &o.tree));
    tree.map(|tree| ParsedTree { tree, language: p.language, text: source.to_string(), fresh: base.is_none() })
}

/// tree-sitter's `Query::new` of a bundled highlight query against the
/// grammar: a query exactly when it compiles (see [`query_compiles`]).
#[verifier::external_body]
fn ts_query(g: &Grammar, source: QuerySource) -> (q: Option<CompiledQuery>)
    ensures
        q is Some <==> query_compiles(g.language, source),
        q matches Some(x) ==> x.language == g.language && x.source == source,
{
    let text: &str = match source {
        QuerySource::Rust => tree_sitter_rust::HIGHLIGHTS_QUERY,
        QuerySource::JavaScript => tree_sitter_javascript::HIGHLIGHT_QUERY,
        QuerySource::TypeScript => tree_sitter_typescript::HIGHLIGHTS_QUERY,
        QuerySource::Json => tree_sitter_json::HIGHLIGHTS_QUERY,
        QuerySource::Bash => tree_sitter_bash::HIGHLIGHT_QUERY,
    };
    Query::new(&g.lang, text).ok().map(|query| CompiledQuery { query, language: g.language, source })
}

/// Every highlight query of the language compiles.
pub open spec fn queries_compile(l: Language) -> bool {
    forall|k: int| 0 <= k < queries_spec(l).len() ==> query_compiles(l, #[trigger] queries_spec(l)[k])
}

/// The highlighter of a language loads: its grammar loads and every one of
/// its highlight queries compiles.
pub open spec fn highlighter_loads(l: Language) -> bool {
    grammar_loads(l) && queries_compile(l)
}

/// Compiled queries are the language's highlight queries, in order.
spec fn queries_match(v: Seq<CompiledQuery>, l: Language) -> bool {
    &&& v.len() == queries_spec(l).len()
    &&& forall|k: int| 0 <= k < v.len() ==> (#[trigger] v[k]).language == l && v[k].source == queries_spec(l)[k]
}

/// Compile the language's highlight queries, in order; `None` when one
/// does not compile.
fn compile_queries(g: &Grammar) -> (r: Option<Vec<CompiledQuery>>)
    ensures
        r is Some <==> queries_compile(g.language),
        r matches Some(v) ==> queries_match(v@, g.language),
{
    let sources = g.language.highlights_queries();
    let mut queries: Vec<CompiledQuery> = Vec::new();
    let mut k: usize = 0;
    while k < sources.len()
        invariant
            k <= sources@.len(),
            sources@ == queries_spec(g.language),
            queries@.len() == k,
            forall|j: int| 0 <= j < k ==> query_compiles(g.language, #[trigger] queries_spec(g.language)[j]),
            forall|j: int| 0 <= j < k ==> (#[trigger] queries@[j]).language == g.language
                && queries@[j].source == queries_spec(g.language)[j],
        decreases sources@.len() - k,
    {
        match ts_query(g, sources[k]) {
            Some(q) => queries.push(q),
            None => {
                return None;
            },
        }
        k += 1;
    }
    Some(queries)
}

/// tree-sitter's `QueryCursor::captures` of a query over a tree's root, run
/// against the text the tree parses: each capture handed out as its node's
/// byte range and its capture name, in the order tree-sitter yields them
/// (see [`ts_capture_list`]).
#[verifier::external_body]
fn ts_captures(q: &CompiledQuery, t: &ParsedTree) -> (v: Vec<(usize, usize, String)>)
    requires
        q.language == t.language,
    ensures
        t.fresh ==> raw_views(v@) == ts_capture_list(t.language, q.source, t.text@),
{
    let mut out = Vec::new();
    let mut cursor = QueryCursor::new();
    let mut stream = cursor.captures(&q.query, t.tree.root_node(), t.text.as_bytes());
    while let Some((mat, index)) = stream.next() {
        let capture = mat.captures[*index];
        let name = q.query.capture_names()[capture.index as usize];
        out.push((capture.node.start_byte(), capture.node.end_byte(), name.to_string()));
    }
    out
}

/// The byte offset of every char index, or `None` when the source's byte
/// length does not fit in `usize`.
fn char_offsets_checked(cs: &Vec<char>) -> (r: Option<Vec<usize>>)
    ensures
        r is Some <==> byte_len(cs@) <= usize::MAX,
        r matches Some(offs) ==> offs@.len() == cs@.len() + 1
            && forall|j: int| 0 <= j <= cs@.len() ==> #[trigger] offs@[j] == offset_of(cs@, j),
{
    let mut acc: usize = 0;
    let mut i: usize = 0;
    assert(cs@.take(0) =~= Seq::<char>::empty());
    while i < cs.len()
        invariant
            i <= cs@.len(),
            acc == offset_of(cs@, i as int),
        decreases cs@.len() - i,
    {
        proof {
            lemma_byte_len_prefix(cs@, i as int);
            assert(cs@.take(i + 1).drop_last() =~= cs@.take(i as int));
        }
        let w = utf8_width(cs[i]);
        if acc > usize::MAX - w {
            proof { lemma_byte_len_prefix(cs@, i + 1); }
            return None;
        }
        acc = acc + w;
        i += 1;
    }
    assert(cs@.take(cs@.len() as int) =~= cs@);
    Some(char_offsets(cs))
}

/// The raw capture lists of the language's highlight queries over the
/// parse of `s`, one per query in order.
pub open spec fn capture_lists(l: Language, s: Seq<char>) -> Seq<Seq<RawCaptureView>> {
    queries_spec(l).map_values(|q: QuerySource| ts_capture_list(l, q, s))
}

/// The styled captures highlighting `s` in `l` works from.
pub open spec fn highlight_captures(l: Language, s: Seq<char>) -> Seq<CaptureView> {
    styled_all(capture_lists(l, s))
}

/// The span stream highlighting `s` in `l` gives: when the highlighter
/// loads and the byte length fits in `usize`, the segmentation of the source
/// by the styled captures of a fresh parse; otherwise nothing.
pub open spec fn highlight_spec(l: Language, s: Seq<char>) -> Seq<SpanView> {
    if highlighter_loads(l) && byte_len(s) <= usize::MAX {
        segments_spec(s, highlight_captures(l, s))
    } else {
        Seq::empty()
    }
}

/// The styled captures of the grammar's highlight queries over a parsed
/// tree: capture names mapped to styles, unstyled (plain) captures dropped;
/// `None` when a query does not compile.
fn styled_captures(g: &Grammar, tree: &ParsedTree) -> (r: Option<Vec<Capture>>)
    requires
        tree.language == g.language,
        tree.fresh,
    ensures
        r is Some <==> queries_compile(g.language),
        r matches Some(caps) ==> capture_views(caps@) == highlight_captures(g.language, tree.text@),
{
    let queries = match compile_queries(g) {
        Some(q) => q,
        None => {
            return None;
        },
    };
    let caps = collect_captures(&queries, tree);
    proof {
        assert(queries@.map_values(|q: CompiledQuery| ts_capture_list(tree.language, q.source, tree.text@))
            =~= capture_lists(g.language, tree.text@));
    }
    Some(caps)
}

/// Token-highlight `source` in `language` and return a complete span
/// stream (see [`highlight_spec`]): the spans cover every byte of the
/// source (gaps between captures get the default style) and adjacent
/// same-style spans merge, so the span texts concatenate to the source.
/// When the grammar or a query fails to load, the stream is empty.
pub fn highlight(language: Language, source: &str) -> (r: Vec<Span>)
    ensures
        span_views(r@) == highlight_spec(language, source@),
        highlighter_loads(language) && byte_len(source@) <= usize::MAX
            ==> (r@.len() > 0 <==> source@.len() > 0) && concat_texts(span_views(r@)) == source@,
        r@.len() == 0 || concat_texts(span_views(r@)) == source@,
        neighbors_differ(span_views(r@)),
        spans_nonempty(span_views(r@)),
{
    let grammar = ts_language(language);
    let mut parser = match ts_parser(&grammar) {
        Some(p) => p,
        None => {
            return Vec::new();
        },
    };
    let tree = match ts_parse(&mut parser, source, None) {
        Some(t) => t,
        None => {
            return Vec::new();
        },
    };
    let captures = match styled_captures(&grammar, &tree) {
        Some(c) => c,
        None => {
            return Vec::new();
        },
    };
    let r = spans_of_captures(source, &captures);
    proof {
        spans_reconstruct_source(source@, capture_views(captures@));
    }
    r
}

/// The span stream for styled captures (see [`segments_spec`]), or an
/// empty stream when the source's byte length does not fit in `usize`. A
/// capture boundary that falls inside a character is no segment boundary.
pub fn spans_of_captures(source: &str, captures: &Vec<Capture>) -> (r: Vec<Span>)
    ensures
        byte_len(source@) <= usize::MAX ==> span_views(r@) == segments_spec(source@, capture_views(captures@)),
        byte_len(source@) > usize::MAX ==> r@.len() == 0,
{
    match byte_length(source) {
        Some(_) => segments_from_captures(source, captures.as_slice()),
        None => Vec::new(),
    }
}

// ---------------------------------------------------------------------------
// Incremental highlighting
// ---------------------------------------------------------------------------

/// The (row, column) where a tree's root ends: tree-sitter's
/// `Node::end_position` of `Tree::root_node`. Nothing is stated of it: for
/// a re-parsed tree it depends on the parse history, which tree-sitter does
/// not document.
#[verifier::external_body]
fn ts_root_end(t: &ParsedTree) -> (p: (usize, usize)) {
    let point = t.tree.root_node().end_position();
    (point.row, point.column)
}

/// tree-sitter's `Tree::edit`: record that the tree's text, of `start`
/// bytes, grew by an append at its end to `text`, of `new_end` bytes
/// (positions `start_pos` to `new_end_pos`). The edited tree is the old
/// tree for a re-parse of `text`.
#[verifier::external_body]
fn ts_edit(t: ParsedTree, text: &str, start: usize, new_end: usize, start_pos: (usize, usize),
    new_end_pos: (usize, usize)) -> (e: EditedTree)
    ensures
        e.language == t.language && e.text@ == text@,
{
    let mut tree = t.tree;
    tree.edit(&InputEdit {
        start_byte: start,
        old_end_byte: start,
        new_end_byte: new_end,
        start_position: Point::new(start_pos.0, start_pos.1),
        old_end_position: Point::new(start_pos.0, start_pos.1),
        new_end_position: Point::new(new_end_pos.0, new_end_pos.1),
    });
    EditedTree { tree, language: t.language, text: text.to_string() }
}

/// tree-sitter's `Tree::changed_ranges` between an edited old tree and the
/// re-parse of its text, each range as its byte span. Nothing is stated of
/// the ranges: they depend on both trees, which depend on the parse
/// history.
#[verifier::external_body]
fn ts_changed_ranges(edited: &EditedTree, new: &ParsedTree) -> (v: Vec<(usize, usize)>) {
    edited.tree.changed_ranges(&new.tree).map(|r| (r.start_byte, r.end_byte)).collect()
}

/// `x` saturated at `usize::MAX`.
pub open spec fn sat_usize(x: int) -> int {
    if x > usize::MAX { usize::MAX as int } else { x }
}

/// The (row, column) after `s` written at `pos`: a newline starts the next
/// row; any other character advances the column by its UTF-8 length
/// (columns count bytes). Both saturate at `usize::MAX`.
pub open spec fn advance_pos(pos: (int, int), s: Seq<char>) -> (int, int)
    decreases s.len(),
{
    if s.len() == 0 {
        pos
    } else {
        let p = advance_pos(pos, s.drop_last());
        if s.last() == '\n' { (sat_usize(p.0 + 1), 0) } else { (p.0, sat_usize(p.1 + utf8_len(s.last()))) }
    }
}

/// The position after `chunk` written at `pos` (see [`advance_pos`]).
pub fn end_after(pos: (usize, usize), chunk: &str) -> (r: (usize, usize))
    ensures
        (r.0 as int, r.1 as int) == advance_pos((pos.0 as int, pos.1 as int), chunk@),
{
    let cs = chars_of(chunk);
    let mut row = pos.0;
    let mut column = pos.1;
    let mut i: usize = 0;
    while i < cs.len()
        invariant
            i <= cs@.len(),
            cs@ == chunk@,
            (row as int, column as int) == advance_pos((pos.0 as int, pos.1 as int), cs@.take(i as int)),
        decreases cs@.len() - i,
    {
        assert(cs@.take(i + 1).drop_last() =~= cs@.take(i as int));
        if cs[i] == '\n' {
            row = row.saturating_add(1);
            column = 0;
        } else {
            column = column.saturating_add(utf8_width(cs[i]));
        }
        i += 1;
    }
    assert(cs@.take(cs@.len() as int) =~= cs@);
    (row, column)
}

/// The least start of the first `k` ranges.
pub open spec fn min_start(rs: Seq<(usize, usize)>, k: int) -> int
    decreases k,
{
    if k <= 1 { rs[0].0 as int } else if (rs[k - 1].0 as int) < min_start(rs, k - 1) { rs[k - 1].0 as int } else { min_start(rs, k - 1) }
}

/// The greatest end of the first `k` ranges.
pub open spec fn max_end(rs: Seq<(usize, usize)>, k: int) -> int
    decreases k,
{
    if k <= 1 { rs[0].1 as int } else if (rs[k - 1].1 as int) > max_end(rs, k - 1) { rs[k - 1].1 as int } else { max_end(rs, k - 1) }
}

/// The union span of changed ranges: from the least start to the greatest
/// end; with no changed range, the appended bytes `old_len..new_len`.
pub open spec fn changed_span_spec(rs: Seq<(usize, usize)>, old_len: usize, new_len: usize) -> (usize, usize) {
    if rs.len() == 0 {
        (old_len, new_len)
    } else {
        (min_start(rs, rs.len() as int) as usize, max_end(rs, rs.len() as int) as usize)
    }
}

/// The union span of changed ranges (see [`changed_span_spec`]).
pub fn changed_span(ranges: &Vec<(usize, usize)>, old_len: usize, new_len: usize) -> (r: (usize, usize))
    ensures
        r == changed_span_spec(ranges@, old_len, new_len),
{
    if ranges.len() == 0 {
        return (old_len, new_len);
    }
    let mut lo = ranges[0].0;
    let mut hi = ranges[0].1;
    let mut k: usize = 1;
    while k < ranges.len()
        invariant
            1 <= k <= ranges@.len(),
            lo as int == min_start(ranges@, k as int),
            hi as int == max_end(ranges@, k as int),
        decreases ranges@.len() - k,
    {
        if ranges[k].0 < lo {
            lo = ranges[k].0;
        }
        if ranges[k].1 > hi {
            hi = ranges[k].1;
        }
        k += 1;
    }
    (lo, hi)
}

/// The UTF-8 length of a text, or `None` when it does not fit in `usize`.
fn byte_length(s: &str) -> (r: Option<usize>)
    ensures
        r is Some <==> byte_len(s@) <= usize::MAX,
        r matches Some(n) ==> n == byte_len(s@),
{
    let cs = chars_of(s);
    match char_offsets_checked(&cs) {
        Some(offs) => {
            assert(cs@.take(cs@.len() as int) =~= cs@);
            Some(offs[cs.len()])
        },
        None => None,
    }
}

/// The styled captures of compiled queries over a parsed tree: for each
/// query in order, what tree-sitter captures with it (see
/// [`ts_capture_list`]), styled (see [`styled_all`]).
fn collect_captures(queries: &Vec<CompiledQuery>, tree: &ParsedTree) -> (caps: Vec<Capture>)
    requires
        forall|k: int| 0 <= k < queries@.len() ==> (#[trigger] queries@[k]).language == tree.language,
    ensures
        tree.fresh ==> capture_views(caps@) == styled_all(
            queries@.map_values(|q: CompiledQuery| ts_capture_list(tree.language, q.source, tree.text@)),
        ),
{
    let ghost lists = queries@.map_values(|q: CompiledQuery| ts_capture_list(tree.language, q.source, tree.text@));
    let ghost mut got: Seq<Seq<RawCaptureView>> = Seq::empty();
    let plain = Style::new();
    let mut caps: Vec<Capture> = Vec::new();
    let mut qi: usize = 0;
    while qi < queries.len()
        invariant
            qi <= queries@.len(),
            plain@ == plain_style(),
            lists == queries@.map_values(|q: CompiledQuery| ts_capture_list(tree.language, q.source, tree.text@)),
            forall|k: int| 0 <= k < queries@.len() ==> (#[trigger] queries@[k]).language == tree.language,
            got.len() == qi,
            styled_all(got) == capture_views(caps@),
            tree.fresh ==> got == lists.take(qi as int),
        decreases queries@.len() - qi,
    {
        let raw = ts_captures(&queries[qi], tree);
        let ghost rv = raw_views(raw@);
        let ghost base = capture_views(caps@);
        let mut i: usize = 0;
        while i < raw.len()
            invariant
                i <= raw@.len(),
                rv == raw_views(raw@),
                plain@ == plain_style(),
                capture_views(caps@) == base + styled_raw(rv.take(i as int)),
            decreases raw@.len() - i,
        {
            assert(rv.take(i + 1).drop_last() =~= rv.take(i as int));
            assert(rv.take(i + 1).last() == rv[i as int]);
            assert(rv[i as int] == (raw@[i as int].0, raw@[i as int].1, raw@[i as int].2@));
            let ghost before = caps@;
            let style = style_for_capture(raw[i].2.as_str());
            if !(style == plain) {
                let ghost sv = style@;
                caps.push((raw[i].0, raw[i].1, style));
                assert(sv != plain_style());
                assert(capture_views(caps@) =~= capture_views(before).push((rv[i as int].0 as int, rv[i as int].1 as int, sv)));
                assert(capture_views(caps@) =~= base + styled_raw(rv.take(i + 1)));
            } else {
                assert(capture_views(caps@) =~= base + styled_raw(rv.take(i + 1)));
            }
            i += 1;
        }
        assert(rv.take(raw@.len() as int) =~= rv);
        proof {
            let g0 = got;
            got = got.push(rv);
            assert(got.drop_last() =~= g0);
            if tree.fresh {
                assert(lists.take(qi + 1) =~= lists.take(qi as int).push(rv));
            }
        }
        qi += 1;
    }
    assert(lists.take(queries@.len() as int) =~= lists);
    caps
}

/// An incremental token highlighter: it buffers the accumulated source,
/// keeps the parse tree of it, and re-parses only the tail on each append.
/// The highlight queries are compiled once, in [`new`](Self::new).
pub struct IncrementalHighlighter {
    language: Language,
    parser: LangParser,
    tree: Option<ParsedTree>,
    source: String,
    queries: Vec<CompiledQuery>,
    last_changed: (usize, usize),
}

impl IncrementalHighlighter {
    /// Well-formedness: the parser and queries are the language's, its
    /// highlighter loads, and the kept tree is the parse of the buffered
    /// source.
    pub closed spec fn wf(&self) -> bool {
        &&& self.parser.language == self.language
        &&& highlighter_loads(self.language)
        &&& queries_match(self.queries@, self.language)
        &&& self.tree matches Some(t) ==> t.language == self.language && t.text@ == self.source@
    }

    /// The accumulated source.
    pub closed spec fn text(&self) -> Seq<char> {
        self.source@
    }

    /// The byte span the last incremental parse reworked.
    pub closed spec fn changed(&self) -> (usize, usize) {
        self.last_changed
    }

    /// The language the highlighter parses and highlights.
    pub closed spec fn language(&self) -> Language {
        self.language
    }

    /// Whether a parse tree of the source is kept for the next append.
    pub closed spec fn has_tree(&self) -> bool {
        self.tree is Some
    }

    /// A highlighter for `language`, exactly when its grammar loads and its
    /// highlight queries compile. It starts with no source and no tree.
    pub fn new(language: Language) -> (r: Option<Self>)
        ensures
            r is Some <==> highlighter_loads(language),
            r matches Some(h) ==> h.wf() && h.text() == Seq::<char>::empty() && h.changed() == (0usize, 0usize)
                && h.language() == language && !h.has_tree(),
    {
        let grammar = ts_language(language);
        let parser = match ts_parser(&grammar) {
            Some(p) => p,
            None => {
                return None;
            },
        };
        let queries = match compile_queries(&grammar) {
            Some(q) => q,
            None => {
                return None;
            },
        };
        Some(IncrementalHighlighter {
            language,
            parser,
            tree: None,
            source: String::new(),
            queries,
            last_changed: (0, 0),
        })
    }

    /// Append `chunk` to the buffered source and return the complete span
    /// stream for the accumulated text: gaps get the default style,
    /// equal-style neighbors merge, and the span texts concatenate to the
    /// text. The parse is incremental: the kept tree is edited to describe
    /// the append and reused, and the changed span becomes the union of the
    /// ranges the re-parse changed. Without a kept tree (the first append, or
    /// after a reset) the parse is fresh, the stream is exactly a one-shot
    /// [`highlight`]'s (see [`highlight_spec`]) and the changed span is the
    /// whole source. An empty chunk is a no-op returning an empty stream.
    pub fn append(&mut self, chunk: &str) -> (r: Vec<Span>)
        requires
            old(self).wf(),
        ensures
            final(self).wf(),
            final(self).language() == old(self).language(),
            chunk@.len() == 0 ==> r@.len() == 0 && final(self).text() == old(self).text()
                && final(self).changed() == old(self).changed() && final(self).has_tree() == old(self).has_tree(),
            chunk@.len() > 0 ==> final(self).text() == old(self).text() + chunk@,
            chunk@.len() > 0 && !old(self).has_tree()
                ==> span_views(r@) == highlight_spec(final(self).language(), final(self).text()),
            chunk@.len() > 0 && byte_len(final(self).text()) <= usize::MAX
                ==> exists|caps: Seq<CaptureView>| span_views(r@) == #[trigger] segments_spec(final(self).text(), caps),
            chunk@.len() > 0 && byte_len(final(self).text()) <= usize::MAX
                ==> r@.len() > 0 && concat_texts(span_views(r@)) == final(self).text() && final(self).has_tree(),
            chunk@.len() > 0 && byte_len(final(self).text()) <= usize::MAX && old(self).has_tree()
                ==> exists|rs: Seq<(usize, usize)>| final(self).changed() == #[trigger] changed_span_spec(
                    rs,
                    byte_len(old(self).text()) as usize,
                    byte_len(final(self).text()) as usize,
                ),
            chunk@.len() > 0 && byte_len(final(self).text()) <= usize::MAX && !old(self).has_tree()
                ==> final(self).changed() == (0usize, byte_len(final(self).text()) as usize),
            chunk@.len() > 0 && byte_len(final(self).text()) > usize::MAX ==> r@.len() == 0 && !final(self).has_tree()
                && final(self).changed() == old(self).changed(),
            r@.len() == 0 || concat_texts(span_views(r@)) == final(self).text(),
            neighbors_differ(span_views(r@)),
            spans_nonempty(span_views(r@)),
    {
        let cs = chars_of(chunk);
        if cs.len() == 0 {
            assert(chunk@ =~= Seq::<char>::empty());
            return Vec::new();
        }
        let ghost old_text = self.source@;
        let ghost had_tree = self.tree is Some;
        let old_len = byte_length(self.source.as_str());
        let prior = self.tree.take();
        let old_end = match &prior {
            Some(t) => ts_root_end(t),
            None => (0, 0),
        };
        self.source.append(chunk);
        let new_len = byte_length(self.source.as_str());
        let (old_len, new_len) = match (old_len, new_len) {
            (Some(a), Some(b)) => (a, b),
            _ => {
                proof {
                    lemma_byte_len_prefix(self.source@, old_text.len() as int);
                    assert(self.source@.take(old_text.len() as int) =~= old_text);
                }
                return Vec::new();
            },
        };
        let edited = match prior {
            Some(t) => {
                let new_end = end_after(old_end, chunk);
                proof {
                    assert(self.source@.take(old_text.len() as int) =~= old_text);
                    assert(self.source@.skip(old_text.len() as int) =~= chunk@);
                }
                Some(ts_edit(t, self.source.as_str(), old_len, new_len, old_end, new_end))
            },
            None => None,
        };
        let parsed = match &edited {
            Some(e) => ts_parse(&mut self.parser, self.source.as_str(), Some(e)),
            None => ts_parse(&mut self.parser, self.source.as_str(), None),
        };
        let new_tree = match parsed {
            Some(t) => t,
            None => {
                return Vec::new();
            },
        };
        let ghost mut witness: Seq<(usize, usize)> = Seq::empty();
        self.last_changed = match &edited {
            Some(e) => {
                let ranges = ts_changed_ranges(e, &new_tree);
                proof { witness = ranges@; }
                changed_span(&ranges, old_len, new_len)
            },
            None => (0, new_len),
        };
        assert(had_tree ==> edited is Some);
        assert(old_len == byte_len(old_text) as usize && new_len == byte_len(self.source@) as usize);
        assert(had_tree ==> self.last_changed == changed_span_spec(witness, byte_len(old_text) as usize,
            byte_len(self.source@) as usize));
        let captures = collect_captures(&self.queries, &new_tree);
        proof {
            assert(self.queries@.map_values(|q: CompiledQuery| ts_capture_list(new_tree.language, q.source, new_tree.text@))
                =~= capture_lists(self.language, self.source@));
        }
        self.tree = Some(new_tree);
        let r = spans_of_captures(self.source.as_str(), &captures);
        proof {
            spans_reconstruct_source(self.source@, capture_views(captures@));
            assert(span_views(r@) == segments_spec(self.source@, capture_views(captures@)));
            assert(self.source@.len() > 0);
            assert(span_views(r@).len() == r@.len());
            assert(old(self).text() == old_text);
            assert(old(self).has_tree() == had_tree);
            if had_tree {
                assert(self.changed() == changed_span_spec(witness, byte_len(old(self).text()) as usize,
                    byte_len(self.text()) as usize));
            }
        }
        r
    }

    /// Drop the buffered source and the parse tree; the next append is a
    /// full parse from scratch.
    pub fn reset(&mut self)
        requires
            old(self).wf(),
        ensures
            final(self).wf(),
            final(self).text() == Seq::<char>::empty(),
            final(self).changed() == (0usize, 0usize),
            final(self).language() == old(self).language(),
            !final(self).has_tree(),
    {
        self.tree = None;
        self.source = String::new();
        self.last_changed = (0, 0);
    }

    /// The byte span the last incremental parse reworked: the union of the
    /// changed ranges between the old and new trees (the whole source on a
    /// fresh parse); `(0, 0)` before the first append or after a reset.
    pub fn last_changed_span(&self) -> (r: (usize, usize))
        ensures
            r == self.changed(),
    {
        self.last_changed
    }
}

} // verus!
