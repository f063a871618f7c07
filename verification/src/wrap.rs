//! Soft wrap of a logical text line into display lines.
//!
//! Wrapping is greedy and token-aware: a whitespace-free token that does not
//! fit on the current display line wraps whole to the next when it can fit
//! there; a token wider than the whole width is hard-broken across display
//! lines, and a single glyph wider than the width is dropped. A trailing
//! space at a full display line is dropped, and an embedded `\n` ends the
//! display line. A wide glyph is never split. Each display line records the
//! char index (within the logical line) where it starts.

use vstd::prelude::*;

use crate::cell::{char_width, char_width_spec, sum_widths};
use crate::text::{chars_of, string_of};

verus! {

/// The state of the greedy wrap after a prefix of the line: the finished
/// display lines (text and start index), the display line being filled
/// (text, display width, start index), and the pending whitespace-free
/// token (text and start index).
#[verifier::ext_equal]
pub struct WrapState {
    pub rows: Seq<(Seq<char>, int)>,
    pub row: Seq<char>,
    pub row_width: int,
    pub row_start: int,
    pub token: Seq<char>,
    pub token_start: int,
}

/// The empty wrap state.
pub open spec fn wrap_init() -> WrapState {
    WrapState { rows: Seq::empty(), row: Seq::empty(), row_width: 0, row_start: 0, token: Seq::empty(), token_start: 0 }
}

/// Close the display line being filled and start an empty one.
pub open spec fn close_row(st: WrapState) -> WrapState {
    WrapState { rows: st.rows.push((st.row, st.row_start)), row: Seq::empty(), row_width: 0, ..st }
}

/// Place one token glyph `ch`, found at char index `cur`: a zero-width glyph
/// is skipped; a glyph that does not fit closes the line first, and a glyph
/// wider than the whole width is then dropped.
pub open spec fn place_glyph(st: WrapState, ch: char, cur: int, width: int) -> WrapState {
    let w = char_width_spec(ch) as int;
    if w == 0 {
        st
    } else if st.row_width + w > width {
        let closed = close_row(st);
        if w > width {
            WrapState { row_start: cur + 1, ..closed }
        } else {
            WrapState { row: seq![ch], row_width: w, row_start: cur, ..closed }
        }
    } else {
        WrapState { row: st.row.push(ch), row_width: st.row_width + w, ..st }
    }
}

/// Place the first `k` glyphs of `token` (which starts at char index
/// `start`).
pub open spec fn place_token(st: WrapState, token: Seq<char>, start: int, k: nat, width: int) -> WrapState
    decreases k,
{
    if k == 0 {
        st
    } else {
        place_glyph(place_token(st, token, start, (k - 1) as nat, width), token[k - 1], start + k - 1, width)
    }
}

/// Place the pending token: it wraps whole to a fresh line when it does not
/// fit the current (non-empty) line but fits a fresh one; otherwise it is
/// placed glyph by glyph.
pub open spec fn flush_spec(st: WrapState, width: int) -> WrapState {
    if st.token.len() == 0 {
        st
    } else {
        let tw = sum_widths(st.token);
        let st1 = if st.row.len() > 0 && st.row_width + tw > width && tw <= width {
            WrapState { row_start: st.token_start, ..close_row(st) }
        } else {
            st
        };
        place_token(st1, st.token, st.token_start, st.token.len(), width)
    }
}

/// Process the character `ch` at char index `idx`.
pub open spec fn wrap_step(st: WrapState, ch: char, idx: int, width: int) -> WrapState {
    if ch == '\n' {
        let f = flush_spec(st, width);
        WrapState { row_start: idx + 1, token: Seq::empty(), ..close_row(f) }
    } else if ch == ' ' {
        let f = flush_spec(st, width);
        if f.row_width + 1 <= width {
            WrapState { row: f.row.push(' '), row_width: f.row_width + 1, token: Seq::empty(), ..f }
        } else {
            WrapState { token: Seq::empty(), ..f }
        }
    } else {
        WrapState {
            token: st.token.push(ch),
            token_start: if st.token.len() == 0 { idx } else { st.token_start },
            ..st
        }
    }
}

/// The wrap state after the first `n` characters of `line`.
pub open spec fn wrap_state(line: Seq<char>, n: nat, width: int) -> WrapState
    decreases n,
{
    if n == 0 {
        wrap_init()
    } else {
        wrap_step(wrap_state(line, (n - 1) as nat, width), line[n - 1], n - 1, width)
    }
}

/// The display lines of `line` soft-wrapped at `width` columns (at least
/// 1), each with the char index where it starts.
pub open spec fn wrap_spec(line: Seq<char>, width: int) -> Seq<(Seq<char>, int)> {
    let w = if width < 1 { 1 } else { width };
    let f = flush_spec(wrap_state(line, line.len(), w), w);
    close_row(f).rows
}

/// The columns a display line takes as the wrap counts them: a space one
/// column, any other character its display width.
pub open spec fn row_columns(s: Seq<char>) -> int
    decreases s.len(),
{
    if s.len() == 0 {
        0
    } else {
        row_columns(s.drop_last()) + (if s.last() == ' ' { 1 } else { char_width_spec(s.last()) as int })
    }
}

/// The wrap state's accounting is right and within `w` columns.
spec fn state_fits(st: WrapState, w: int) -> bool {
    &&& st.row_width == row_columns(st.row)
    &&& 0 <= st.row_width <= w
    &&& forall|k: int| 0 <= k < st.rows.len() ==> row_columns(#[trigger] st.rows[k].0) <= w
}

proof fn lemma_close_fits(st: WrapState, w: int)
    requires
        state_fits(st, w),
    ensures
        state_fits(close_row(st), w),
{
    let c = close_row(st);
    assert forall|k: int| 0 <= k < c.rows.len() implies row_columns(#[trigger] c.rows[k].0) <= w by {
        if k < st.rows.len() {
            assert(c.rows[k] == st.rows[k]);
        }
    }
}

proof fn lemma_glyph_fits(st: WrapState, ch: char, cur: int, w: int)
    requires
        state_fits(st, w),
        ch != ' ',
    ensures
        state_fits(place_glyph(st, ch, cur, w), w),
{
    let cw = char_width_spec(ch) as int;
    if cw == 0 {
    } else if st.row_width + cw > w {
        lemma_close_fits(st, w);
        if cw <= w {
            assert(seq![ch].drop_last() =~= Seq::<char>::empty());
        }
    } else {
        assert(st.row.push(ch).drop_last() =~= st.row);
    }
}

proof fn lemma_token_fits(st: WrapState, token: Seq<char>, start: int, k: nat, w: int)
    requires
        state_fits(st, w),
        k <= token.len(),
        forall|i: int| 0 <= i < token.len() ==> token[i] != ' ',
    ensures
        state_fits(place_token(st, token, start, k, w), w),
    decreases k,
{
    if k > 0 {
        lemma_token_fits(st, token, start, (k - 1) as nat, w);
        lemma_glyph_fits(place_token(st, token, start, (k - 1) as nat, w), token[k - 1], start + k - 1, w);
    }
}

spec fn token_spaceless(st: WrapState) -> bool {
    forall|i: int| 0 <= i < st.token.len() ==> st.token[i] != ' '
}

proof fn lemma_flush_fits(st: WrapState, w: int)
    requires
        state_fits(st, w),
        token_spaceless(st),
    ensures
        state_fits(flush_spec(st, w), w),
{
    if st.token.len() > 0 {
        let tw = sum_widths(st.token);
        if st.row.len() > 0 && st.row_width + tw > w && tw <= w {
            lemma_close_fits(st, w);
            let st1 = WrapState { row_start: st.token_start, ..close_row(st) };
            lemma_token_fits(st1, st.token, st.token_start, st.token.len(), w);
        } else {
            lemma_token_fits(st, st.token, st.token_start, st.token.len(), w);
        }
    }
}

proof fn lemma_state_fits(line: Seq<char>, n: nat, w: int)
    requires
        n <= line.len(),
        w >= 1,
    ensures
        state_fits(wrap_state(line, n, w), w),
        token_spaceless(wrap_state(line, n, w)),
    decreases n,
{
    if n > 0 {
        lemma_state_fits(line, (n - 1) as nat, w);
        let st = wrap_state(line, (n - 1) as nat, w);
        let ch = line[n - 1];
        if ch == '\n' {
            lemma_flush_fits(st, w);
            lemma_close_fits(flush_spec(st, w), w);
        } else if ch == ' ' {
            lemma_flush_fits(st, w);
            let f = flush_spec(st, w);
            assert(f.row.push(' ').drop_last() =~= f.row);
        } else {
            let nt = st.token.push(ch);
            assert forall|i: int| 0 <= i < nt.len() implies nt[i] != ' ' by {
                if i < st.token.len() {
                    assert(nt[i] == st.token[i]);
                }
            }
        }
    }
}

/// Every display line of a soft wrap fits the width (at least 1): its
/// columns, a space counting one and any other character its display
/// width, are at most the width.
pub proof fn wrapped_lines_fit(line: Seq<char>, width: int)
    ensures
        forall|k: int| 0 <= k < wrap_spec(line, width).len()
            ==> row_columns(#[trigger] wrap_spec(line, width)[k].0) <= (if width < 1 { 1 } else { width }),
{
    let w = if width < 1 { 1 } else { width };
    lemma_state_fits(line, line.len(), w);
    lemma_flush_fits(wrap_state(line, line.len(), w), w);
    lemma_close_fits(flush_spec(wrap_state(line, line.len(), w), w), w);
}

proof fn lemma_sum_widths_push(s: Seq<char>, c: char)
    ensures
        sum_widths(s.push(c)) == sum_widths(s) + char_width_spec(c) as int,
    decreases s.len(),
{
    let sp = s.push(c);
    if s.len() > 0 {
        assert(sp[0] == s[0]);
        assert(sp.skip(1) =~= s.skip(1).push(c));
        lemma_sum_widths_push(s.skip(1), c);
        assert(sum_widths(sp) == char_width_spec(sp[0]) as int + sum_widths(sp.skip(1)));
        assert(sum_widths(s) == char_width_spec(s[0]) as int + sum_widths(s.skip(1)));
    } else {
        assert(sp.skip(1) =~= Seq::<char>::empty());
        assert(sum_widths(Seq::<char>::empty()) == 0);
        assert(sum_widths(sp) == char_width_spec(sp[0]) as int + sum_widths(sp.skip(1)));
        assert(s =~= Seq::<char>::empty());
    }
}

/// The wrap state after a prefix depends only on that prefix.
proof fn lemma_state_prefix(a: Seq<char>, b: Seq<char>, n: nat, w: int)
    requires
        n <= a.len(),
        n <= b.len(),
        a.take(n as int) == b.take(n as int),
    ensures
        wrap_state(a, n, w) == wrap_state(b, n, w),
    decreases n,
{
    if n > 0 {
        assert(a.take(n - 1) =~= a.take(n as int).take(n - 1));
        assert(b.take(n - 1) =~= b.take(n as int).take(n - 1));
        lemma_state_prefix(a, b, (n - 1) as nat, w);
        assert(a[n - 1] == a.take(n as int)[n - 1]);
        assert(b[n - 1] == b.take(n as int)[n - 1]);
    }
}

/// Whether the text ends at a token boundary: it is empty or ends with a
/// space or a line break.
pub open spec fn ends_token(p: Seq<char>) -> bool {
    p.len() == 0 || p.last() == ' ' || p.last() == '\n'
}

/// Whether `t` is a whitespace-free token of visible glyphs.
pub open spec fn plain_token(t: Seq<char>) -> bool {
    forall|i: int| 0 <= i < t.len() ==> t[i] != ' ' && t[i] != '\n' && char_width_spec(#[trigger] t[i]) >= 1
}

proof fn lemma_token_accumulates(p: Seq<char>, t: Seq<char>, k: nat, w: int)
    requires
        ends_token(p),
        plain_token(t),
        1 <= k <= t.len(),
    ensures
        wrap_state(p + t, p.len() + k, w)
            == (WrapState { token: t.take(k as int), token_start: p.len() as int, ..wrap_state(p, p.len(), w) }),
    decreases k,
{
    let l = p + t;
    let n = p.len() + k;
    if k == 1 {
        assert(l.take(p.len() as int) =~= p.take(p.len() as int));
        lemma_state_prefix(l, p, p.len(), w);
        let st = wrap_state(p, p.len(), w);
        if p.len() > 0 {
            assert(p.take(p.len() - 1) =~= p.drop_last().take(p.len() - 1));
        }
        lemma_last_empty_token(p, w);
        assert(l[p.len() as int] == t[0]);
        assert(t.take(1) =~= seq![t[0]]);
        assert(st.token.push(t[0]) =~= t.take(1));
    } else {
        lemma_token_accumulates(p, t, (k - 1) as nat, w);
        assert(l[n - 1] == t[k - 1]);
        assert(t.take(k - 1).push(t[k - 1]) =~= t.take(k as int));
    }
}

proof fn lemma_last_empty_token(p: Seq<char>, w: int)
    requires
        ends_token(p),
    ensures
        wrap_state(p, p.len(), w).token.len() == 0,
{
}

proof fn lemma_place_fitting(st: WrapState, t: Seq<char>, start: int, k: nat, w: int)
    requires
        k <= t.len(),
        plain_token(t),
        st.row_width + sum_widths(t.take(k as int)) <= w,
        st.row_width >= 0,
    ensures
        place_token(st, t, start, k, w)
            == (WrapState { row: st.row + t.take(k as int), row_width: st.row_width + sum_widths(t.take(k as int)), ..st }),
    decreases k,
{
    if k == 0 {
        assert(st.row + t.take(0) =~= st.row);
    } else {
        let c = t[k - 1];
        assert(t.take(k - 1).push(c) =~= t.take(k as int));
        lemma_sum_widths_push(t.take(k - 1), c);
        assert(char_width_spec(c) >= 1);
        lemma_place_fitting(st, t, start, (k - 1) as nat, w);
        assert((st.row + t.take(k - 1)).push(c) =~= st.row + t.take(k as int));
    }
}

/// A token that fits a display line is never broken: after text `p` that
/// ends at a token boundary, a whitespace-free token `t` of visible glyphs
/// whose display width is at most `width` either joins the last display
/// line of `p`, when it fits the columns left there (or that line is
/// empty), or starts one new display line of its own, whole, at its char
/// index, when it does not fit.
pub proof fn fitting_token_wraps_whole(p: Seq<char>, t: Seq<char>, width: int)
    requires
        width >= 1,
        ends_token(p),
        t.len() > 0,
        plain_token(t),
        sum_widths(t) <= width,
    ensures
        wrap_spec(p, width).len() >= 1,
        ({
            let rows = wrap_spec(p, width);
            let last = rows.last();
            if last.0.len() > 0 && row_columns(last.0) + sum_widths(t) > width {
                wrap_spec(p + t, width) == rows.push((t, p.len() as int))
            } else {
                wrap_spec(p + t, width) == rows.drop_last().push((last.0 + t, last.1))
            }
        }),
{
    let w = width;
    let st = wrap_state(p, p.len(), w);
    lemma_state_fits(p, p.len(), w);
    lemma_last_empty_token(p, w);
    assert(flush_spec(st, w) == st);
    lemma_token_accumulates(p, t, t.len(), w);
    assert(t.take(t.len() as int) =~= t);
    assert((p + t).len() == p.len() + t.len());
    let s2 = wrap_state(p + t, (p + t).len(), w);
    assert(s2 == (WrapState { token: t, token_start: p.len() as int, ..st }));
    let rows = wrap_spec(p, width);
    assert(rows == st.rows.push((st.row, st.row_start)));
    lemma_sum_widths_nonneg_local(t);
    if st.row.len() > 0 && st.row_width + sum_widths(t) > w {
        let st1 = WrapState { row_start: s2.token_start, ..close_row(s2) };
        lemma_place_fitting(st1, t, p.len() as int, t.len(), w);
        assert(Seq::<char>::empty() + t =~= t);
    } else {
        if st.row.len() == 0 {
            assert(row_columns(st.row) == 0);
        }
        lemma_place_fitting(s2, t, p.len() as int, t.len(), w);
    }
}

/// The display width of `s` when it does not exceed `limit`.
fn width_within(s: &Vec<char>, limit: usize) -> (r: Option<usize>)
    ensures
        sum_widths(s@) <= limit ==> r == Some(sum_widths(s@) as usize),
        sum_widths(s@) > limit ==> r is None,
{
    let mut acc: usize = 0;
    let mut i = s.len();
    let ghost full = s@;
    proof { lemma_sum_widths_nonneg_local(full); }
    while i > 0
        invariant
            i <= full.len(),
            full == s@,
            acc <= limit,
            acc == sum_widths(full.skip(i as int)),
        decreases i,
    {
        i -= 1;
        let w = char_width(s[i]) as usize;
        proof { lemma_sum_widths_mono(full, i as int); }
        if w > limit - acc {
            proof { lemma_sum_widths_mono_all(full, i as int); }
            return None;
        }
        acc = acc + w;
    }
    assert(full.skip(0) =~= full);
    Some(acc)
}

proof fn lemma_sum_widths_nonneg_local(s: Seq<char>)
    ensures
        sum_widths(s) >= 0,
    decreases s.len(),
{
    if s.len() > 0 {
        lemma_sum_widths_nonneg_local(s.skip(1));
    }
}

proof fn lemma_sum_widths_mono(s: Seq<char>, i: int)
    requires
        0 <= i < s.len(),
    ensures
        sum_widths(s.skip(i)) == char_width_spec(s[i]) + sum_widths(s.skip(i + 1)),
{
    assert(s.skip(i).skip(1) =~= s.skip(i + 1));
}

/// A suffix sum never exceeds the full sum.
proof fn lemma_sum_widths_mono_all(s: Seq<char>, i: int)
    requires
        0 <= i <= s.len(),
    ensures
        sum_widths(s.skip(i)) <= sum_widths(s),
    decreases i,
{
    if i > 0 {
        lemma_sum_widths_mono_all(s, i - 1);
        lemma_sum_widths_mono(s, i - 1);
    } else {
        assert(s.skip(0) =~= s);
    }
}

/// The spec view of the exec wrap state.
pub open spec fn state_of(rows: Seq<(Vec<char>, usize)>, row: Seq<char>, row_width: usize, row_start: usize,
    token: Seq<char>, token_start: usize) -> WrapState {
    WrapState {
        rows: rows.map_values(|r: (Vec<char>, usize)| (r.0@, r.1 as int)),
        row,
        row_width: row_width as int,
        row_start: row_start as int,
        token,
        token_start: token_start as int,
    }
}

/// Whether every finished display line ends within the first `bound`
/// characters of the logical line.
pub open spec fn rows_within(rows: Seq<(Seq<char>, int)>, bound: int) -> bool {
    forall|k: int| 0 <= k < rows.len() ==> 0 <= (#[trigger] rows[k]).1 && rows[k].1 + rows[k].0.len() <= bound
}

/// Place a pending whitespace-free token onto the current display line (see
/// [`flush_spec`]).
fn flush_token(
    rows: &mut Vec<(Vec<char>, usize)>,
    row: &mut Vec<char>,
    row_width: &mut usize,
    row_start: &mut usize,
    token: &Vec<char>,
    token_start: usize,
    width: usize,
    Ghost(bound): Ghost<int>,
)
    requires
        width >= 1,
        *old(row_width) <= width,
        token@.len() > 0 ==> token_start + token@.len() <= bound,
        token@.len() > 0 ==> *old(row_start) + old(row)@.len() <= token_start,
        token@.len() == 0 ==> *old(row_start) + old(row)@.len() <= bound,
        *old(row_start) <= bound + 1,
        bound <= usize::MAX,
        rows_within(state_of(old(rows)@, old(row)@, *old(row_width), *old(row_start), token@, token_start).rows, bound),
    ensures
        state_of(final(rows)@, final(row)@, *final(row_width), *final(row_start), token@, token_start)
            == flush_spec(state_of(old(rows)@, old(row)@, *old(row_width), *old(row_start), token@, token_start), width as int),
        *final(row_width) <= width,
        *final(row_start) + final(row)@.len() <= bound,
        *final(row_start) <= bound + 1,
        rows_within(state_of(final(rows)@, final(row)@, *final(row_width), *final(row_start), token@, token_start).rows, bound),
{
    let ghost st0 = state_of(rows@, row@, *row_width, *row_start, token@, token_start);
    if token.len() == 0 {
        return;
    }
    let fits = width_within(token, width);
    proof { lemma_sum_widths_nonneg_local(token@); }
    let wraps_whole = match fits {
        Some(tw) => row.len() > 0 && tw > width - *row_width,
        None => false,
    };
    if wraps_whole {
        let mut full: Vec<char> = Vec::new();
        std::mem::swap(&mut full, row);
        rows.push((full, *row_start));
        *row_width = 0;
        *row_start = token_start;
        assert(state_of(rows@, row@, *row_width, *row_start, token@, token_start)
            =~= WrapState { row_start: st0.token_start, ..close_row(st0) });
    } else {
        assert(state_of(rows@, row@, *row_width, *row_start, token@, token_start) == st0);
    }
    let ghost st1 = state_of(rows@, row@, *row_width, *row_start, token@, token_start);
    assert(flush_spec(st0, width as int) == place_token(st1, token@, token_start as int, token@.len(), width as int));
    let mut cur: usize = token_start;
    let mut k: usize = 0;
    while k < token.len()
        invariant
            width >= 1,
            k <= token@.len(),
            cur == token_start + k,
            token_start + token@.len() <= bound,
            bound <= usize::MAX,
            *row_width <= width,
            *row_start + row@.len() <= cur,
            *row_start <= cur,
            rows_within(state_of(rows@, row@, *row_width, *row_start, token@, token_start).rows, bound),
            state_of(rows@, row@, *row_width, *row_start, token@, token_start)
                == place_token(st1, token@, token_start as int, k as nat, width as int),
        decreases token@.len() - k,
    {
        let ghost before = state_of(rows@, row@, *row_width, *row_start, token@, token_start);
        let ch = token[k];
        let w = char_width(ch) as usize;
        if w == 0 {
            cur += 1;
            k += 1;
            continue;
        }
        if w > width - *row_width {
            let mut full: Vec<char> = Vec::new();
        std::mem::swap(&mut full, row);
            rows.push((full, *row_start));
            *row_width = 0;
            if w > width {
                cur += 1;
                *row_start = cur;
                k += 1;
                assert(state_of(rows@, row@, *row_width, *row_start, token@, token_start)
                    =~= place_glyph(before, ch, cur - 1, width as int));
                continue;
            }
            *row_start = cur;
        }
        row.push(ch);
        *row_width = *row_width + w;
        cur += 1;
        k += 1;
        assert(state_of(rows@, row@, *row_width, *row_start, token@, token_start)
            =~= place_glyph(before, ch, cur - 1, width as int));
    }
}

/// [`wrap_line`] plus the char index (within `line`) where each display line
/// starts.
pub fn wrap_line_with_offsets(line: &str, width: usize) -> (r: Vec<(String, usize)>)
    ensures
        r@.len() == wrap_spec(line@, width as int).len(),
        forall|k: int| 0 <= k < r@.len() ==> (#[trigger] r@[k]).0@ == wrap_spec(line@, width as int)[k].0
            && r@[k].1 == wrap_spec(line@, width as int)[k].1,
        r@.len() >= 1,
        forall|k: int| 0 <= k < r@.len() ==> (#[trigger] r@[k]).1 + r@[k].0@.len() <= line@.len(),
        line@.len() <= usize::MAX,
{
    let width: usize = if width < 1 { 1 } else { width };
    let cs = chars_of(line);
    let ghost bound = cs@.len() as int;
    let mut rows: Vec<(Vec<char>, usize)> = Vec::new();
    let mut row: Vec<char> = Vec::new();
    let mut row_width: usize = 0;
    let mut row_start: usize = 0;
    let mut token: Vec<char> = Vec::new();
    let mut token_start: usize = 0;
    let mut idx: usize = 0;
    assert(state_of(rows@, row@, row_width, row_start, token@, token_start) =~= wrap_init());
    while idx < cs.len()
        invariant
            width >= 1,
            cs@ == line@,
            bound == cs@.len(),
            idx <= cs@.len(),
            row_width <= width,
            row_start <= idx + 1,
            token@.len() > 0 ==> token_start + token@.len() == idx,
            token@.len() > 0 ==> row_start + row@.len() <= token_start,
            token@.len() == 0 ==> row_start + row@.len() <= idx,
            rows_within(state_of(rows@, row@, row_width, row_start, token@, token_start).rows, idx as int),
            state_of(rows@, row@, row_width, row_start, token@, token_start)
                == wrap_state(line@, idx as nat, width as int),
        decreases cs@.len() - idx,
    {
        let ch = cs[idx];
        let ghost before = state_of(rows@, row@, row_width, row_start, token@, token_start);
        if ch == '\n' {
            flush_token(&mut rows, &mut row, &mut row_width, &mut row_start, &token, token_start, width, Ghost(idx as int));
            token = Vec::new();
            let mut full: Vec<char> = Vec::new();
            std::mem::swap(&mut full, &mut row);
            rows.push((full, row_start));
            row_width = 0;
            row_start = idx + 1;
            assert(state_of(rows@, row@, row_width, row_start, token@, token_start)
                =~= wrap_step(before, ch, idx as int, width as int));
        } else if ch == ' ' {
            flush_token(&mut rows, &mut row, &mut row_width, &mut row_start, &token, token_start, width, Ghost(idx as int));
            token = Vec::new();
            if row_width < width {
                row.push(' ');
                row_width += 1;
            }
            assert(state_of(rows@, row@, row_width, row_start, token@, token_start)
                =~= wrap_step(before, ch, idx as int, width as int));
        } else {
            if token.len() == 0 {
                token_start = idx;
            }
            token.push(ch);
            assert(state_of(rows@, row@, row_width, row_start, token@, token_start)
                =~= wrap_step(before, ch, idx as int, width as int));
        }
        idx += 1;
    }
    assert(cs@.len() == line@.len());
    flush_token(&mut rows, &mut row, &mut row_width, &mut row_start, &token, token_start, width, Ghost(bound));
    let ghost f = state_of(rows@, row@, row_width, row_start, token@, token_start);
    rows.push((row, row_start));
    assert(state_of(rows@, Seq::empty(), 0, row_start, token@, token_start).rows =~= close_row(f).rows);
    let ghost spec = wrap_spec(line@, width as int);
    assert(spec == close_row(f).rows);
    assert forall|j: int| 0 <= j < rows@.len() implies (#[trigger] rows@[j]).1 + rows@[j].0@.len() <= bound by {
        if j < rows@.len() - 1 {
            assert(f.rows[j] == (rows@[j].0@, rows@[j].1 as int));
        }
    }
    let mut out: Vec<(String, usize)> = Vec::new();
    let mut k: usize = 0;
    while k < rows.len()
        invariant
            k <= rows@.len(),
            rows@.len() == spec.len(),
            forall|j: int| 0 <= j < rows@.len() ==> (#[trigger] rows@[j]).0@ == spec[j].0 && rows@[j].1 == spec[j].1,
            forall|j: int| 0 <= j < rows@.len() ==> (#[trigger] rows@[j]).1 + rows@[j].0@.len() <= bound,
            out@.len() == k,
            forall|j: int| 0 <= j < k ==> (#[trigger] out@[j]).0@ == spec[j].0 && out@[j].1 == spec[j].1
                && out@[j].1 + out@[j].0@.len() <= bound,
        decreases rows@.len() - k,
    {
        let text = string_of(&rows[k].0);
        out.push((text, rows[k].1));
        k += 1;
    }
    out
}

/// The display lines of `line` when soft-wrapped at `width` columns (at
/// least 1).
pub fn wrap_line(line: &str, width: usize) -> (r: Vec<String>)
    ensures
        r@.len() == wrap_spec(line@, width as int).len(),
        forall|k: int| 0 <= k < r@.len() ==> (#[trigger] r@[k])@ == wrap_spec(line@, width as int)[k].0,
{
    let rows = wrap_line_with_offsets(line, width);
    let mut out: Vec<String> = Vec::new();
    let mut k: usize = 0;
    while k < rows.len()
        invariant
            k <= rows@.len(),
            rows@.len() == wrap_spec(line@, width as int).len(),
            forall|j: int| 0 <= j < rows@.len() ==> (#[trigger] rows@[j]).0@ == wrap_spec(line@, width as int)[j].0,
            out@.len() == k,
            forall|j: int| 0 <= j < k ==> (#[trigger] out@[j])@ == wrap_spec(line@, width as int)[j].0,
        decreases rows@.len() - k,
    {
        out.push(rows[k].0.clone());
        k += 1;
    }
    out
}

} // verus!
