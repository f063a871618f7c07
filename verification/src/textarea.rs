//! [`Textarea`] — a multi-line text-entry field with soft-wrapped display
//! lines, caret placement, and key handling.
//!
//! The component is plain state plus editing operations: `lines` (the logical
//! lines of text), a char-index `row`/`col` cursor, and a `caret_visible`
//! flag the renderer toggles for blinking. Enter splits the line,
//! backspace/delete join adjacent lines at the boundaries, and up/down
//! navigate across the *soft-wrapped display lines* (a logical line that
//! wraps into several display rows at the field width is crossed row by row,
//! preserving a preferred display column).
//!
//! Soft wrap is [`wrap_line`]; with no `width` set, each logical line is one
//! display line. Scrolling is vertical only: `height` sets the visible window
//! in display rows and `scroll_to_caret` keeps the caret's display row inside
//! it.
//!
//! Display-row counts are summed with saturation at `usize::MAX`; no text
//! that fits in memory reaches that bound.

use vstd::prelude::*;

use crate::cell::{char_width, char_width_spec};
use crate::scene::{
    NodeId, NodeKind, NodeView, PropValue, PropValueView, Scene, SceneView, added, fresh_node, written,
};
use crate::style::{Style, StyleView, plain_style};
use crate::text::{chars_of, push_char, string_of};
use crate::wrap::{wrap_line_with_offsets, wrap_spec};

verus! {

broadcast use vstd::string::group_string_axioms;

// ---------------------------------------------------------------------------
// Keys
// ---------------------------------------------------------------------------

/// A key press, independent of the terminal backend.
#[derive(Debug, Clone, Copy, PartialEq, Eq, Structural)]
pub enum Key {
    /// A printable character.
    Char(char),
    /// Delete the character before the cursor.
    Backspace,
    /// Delete the character under the cursor.
    Delete,
    /// Move left.
    Left,
    /// Move right.
    Right,
    /// Move up one display line.
    Up,
    /// Move down one display line.
    Down,
    /// Move to the start of the line.
    Home,
    /// Move to the end of the line.
    End,
    /// Enter / Return.
    Enter,
    /// Escape.
    Escape,
    /// Tab.
    Tab,
}

/// What a key press asks of the application.
#[derive(Debug, Clone, Copy, PartialEq, Eq, Structural)]
pub enum KeyAction {
    /// Nothing beyond the edit itself.
    NoAction,
    /// The user cancelled the field.
    Cancel,
}

// ---------------------------------------------------------------------------
// The model
// ---------------------------------------------------------------------------

/// The characters of each logical line.
pub open spec fn lines_of(v: Seq<String>) -> Seq<Seq<char>> {
    v.map_values(|s: String| s@)
}

/// `x` saturated at `usize::MAX`.
pub open spec fn sat(x: int) -> int {
    if x > usize::MAX { usize::MAX as int } else { x }
}

/// The display lines of logical line `row` with the char index where each
/// starts: the soft wrap at `width`, or the whole line when no width is set.
pub open spec fn wrapped_spec(lines: Seq<Seq<char>>, width: Option<usize>, row: int) -> Seq<(Seq<char>, int)> {
    match width {
        None => seq![(lines[row], 0int)],
        Some(w) => wrap_spec(lines[row], w as int),
    }
}

/// The number of display lines of the logical lines before `row`.
pub open spec fn rows_before(lines: Seq<Seq<char>>, width: Option<usize>, row: int) -> int
    decreases row,
{
    if row <= 0 {
        0
    } else {
        rows_before(lines, width, row - 1) + wrapped_spec(lines, width, row - 1).len()
    }
}

/// The total number of display lines.
pub open spec fn total_rows_spec(lines: Seq<Seq<char>>, width: Option<usize>) -> int {
    sat(rows_before(lines, width, lines.len() as int))
}

/// The first display line, from `i` on, whose span reaches char index `col`
/// (the last display line when none does).
pub open spec fn offset_from(wr: Seq<(Seq<char>, int)>, col: int, i: int) -> int
    decreases wr.len() - i,
{
    if i < 0 || i >= wr.len() {
        if wr.len() == 0 { 0 } else { wr.len() - 1 }
    } else if col <= wr[i].1 + wr[i].0.len() {
        i
    } else {
        offset_from(wr, col, i + 1)
    }
}

/// The display line (within a wrapped logical line) that holds char index
/// `col`.
pub open spec fn offset_of_col_spec(wr: Seq<(Seq<char>, int)>, col: int) -> int {
    offset_from(wr, col, 0)
}

/// The caret's display row across the whole wrapped text.
pub open spec fn caret_row_spec(lines: Seq<Seq<char>>, width: Option<usize>, row: int, col: int) -> int {
    sat(rows_before(lines, width, row) + offset_of_col_spec(wrapped_spec(lines, width, row), col))
}

/// The display width of the first `k` characters of `s`.
pub open spec fn width_upto(s: Seq<char>, k: int) -> int
    decreases k,
{
    if k <= 0 || k > s.len() {
        0
    } else {
        width_upto(s, k - 1) + char_width_spec(s[k - 1])
    }
}

/// Display line `offset` of a wrapped line, or an empty line at 0 past the
/// end.
pub open spec fn display_line(wr: Seq<(Seq<char>, int)>, offset: int) -> (Seq<char>, int) {
    if 0 <= offset < wr.len() { wr[offset] } else { (Seq::empty(), 0int) }
}

/// The display column of char index `col` within display line `offset`
/// (clamped to that line), and the line's start index.
pub open spec fn display_in_spec(wr: Seq<(Seq<char>, int)>, col: int, offset: int) -> (int, int) {
    let (dl, start) = display_line(wr, offset);
    let d = if col - start < 0 { 0 } else { col - start };
    let local = if d < dl.len() { d } else { dl.len() as int };
    (sat(width_upto(dl, local)), start)
}

/// The caret's display column within its own display line.
pub open spec fn current_col_spec(lines: Seq<Seq<char>>, width: Option<usize>, row: int, col: int) -> int {
    let wr = wrapped_spec(lines, width, row);
    display_in_spec(wr, col, offset_of_col_spec(wr, col)).0
}

/// The `(logical row, display-line offset)` of display row `target`,
/// searching from logical row `r` on; past the end, the last display line
/// of the last logical line.
pub open spec fn logical_from(lines: Seq<Seq<char>>, width: Option<usize>, target: int, r: int) -> (int, int)
    decreases lines.len() - r,
{
    if r < 0 || r >= lines.len() {
        let last = if lines.len() == 0 { 0 } else { lines.len() - 1 };
        let n = wrapped_spec(lines, width, last).len();
        (last, if n == 0 { 0 } else { n - 1 })
    } else if target < rows_before(lines, width, r) + wrapped_spec(lines, width, r).len() {
        (r, target - rows_before(lines, width, r))
    } else {
        logical_from(lines, width, target, r + 1)
    }
}

/// The `(logical row, display-line offset)` of display row `target`.
pub open spec fn logical_at_spec(lines: Seq<Seq<char>>, width: Option<usize>, target: int) -> (int, int) {
    logical_from(lines, width, target, 0)
}

/// How many leading characters of `dl`, from index `i` at display column
/// `col`, fit at or before display column `target`.
pub open spec fn fit_from(dl: Seq<char>, i: int, col: int, target: int) -> int
    decreases dl.len() - i,
{
    if i < 0 || i >= dl.len() {
        i
    } else if col + char_width_spec(dl[i]) > target {
        i
    } else {
        fit_from(dl, i + 1, col + char_width_spec(dl[i]), target)
    }
}

/// The char index (within the logical line) at display column `target` of
/// display line `offset`: the line's start plus the characters that fit
/// before `target` (a column inside a wide glyph snaps to its start).
pub open spec fn char_at_col_spec(wr: Seq<(Seq<char>, int)>, offset: int, target: int) -> int {
    let (dl, start) = display_line(wr, offset);
    start + fit_from(dl, 0, 0, target)
}

/// The scroll offset that keeps the caret's display row inside the visible
/// window: 0 with no height; otherwise the window moves down when the caret
/// is below it and up when above.
pub open spec fn visible_scroll_spec(
    lines: Seq<Seq<char>>,
    width: Option<usize>,
    height: Option<usize>,
    row: int,
    col: int,
    scroll: int,
) -> int {
    match height {
        None => 0,
        Some(h0) => {
            let h = if h0 < 1 { 1 } else { h0 as int };
            let caret = caret_row_spec(lines, width, row, col);
            if caret < scroll {
                caret
            } else if caret >= scroll + h {
                caret + 1 - h
            } else {
                scroll
            }
        },
    }
}

/// The logical lines joined by `\n`.
pub open spec fn join_spec(lines: Seq<Seq<char>>) -> Seq<char>
    decreases lines.len(),
{
    if lines.len() == 0 {
        Seq::empty()
    } else if lines.len() == 1 {
        lines[0]
    } else {
        join_spec(lines.drop_last()) + seq!['\n'] + lines.last()
    }
}

/// `s` split into lines on `\n` (always at least one line).
pub open spec fn split_spec(s: Seq<char>) -> Seq<Seq<char>>
    decreases s.len(),
{
    if s.len() == 0 {
        seq![Seq::empty()]
    } else {
        let prev = split_spec(s.drop_last());
        if s.last() == '\n' {
            prev.push(Seq::empty())
        } else {
            prev.update(prev.len() - 1, prev.last().push(s.last()))
        }
    }
}

proof fn lemma_split_nonempty(s: Seq<char>)
    ensures
        split_spec(s).len() >= 1,
    decreases s.len(),
{
    if s.len() > 0 {
        lemma_split_nonempty(s.drop_last());
    }
}

proof fn lemma_rows_before_nonneg(lines: Seq<Seq<char>>, width: Option<usize>, row: int)
    ensures
        rows_before(lines, width, row) >= 0,
    decreases row,
{
    if row > 0 {
        lemma_rows_before_nonneg(lines, width, row - 1);
    }
}

proof fn lemma_width_upto_nonneg(s: Seq<char>, k: int)
    ensures
        width_upto(s, k) >= 0,
    decreases k,
{
    if k > 0 && k <= s.len() {
        lemma_width_upto_nonneg(s, k - 1);
    }
}

// ---------------------------------------------------------------------------
// The component
// ---------------------------------------------------------------------------

/// A multi-line text-entry field.
pub struct Textarea {
    /// The logical lines of text (no embedded `\n`; split with Enter).
    pub lines: Vec<String>,
    /// Cursor row: the index into [`lines`](Self::lines).
    pub row: usize,
    /// Cursor column: a *char index* into `lines[row]` (0 = before the first
    /// char, the char count = after the last).
    pub col: usize,
    /// The style of the entered text.
    pub style: Style,
    /// The style of the field frame (background, border).
    pub frame_style: Style,
    /// Field padding in cells (each side).
    pub padding: u16,
    /// Field border width in cells (each side).
    pub border: u16,
    /// Whether the caret is painted.
    pub caret_visible: bool,
    /// The soft-wrap width in cells; `None` keeps each logical line on one
    /// display line.
    pub width: Option<usize>,
    /// The visible window in display rows; `None` shows every display line.
    pub height: Option<usize>,
    /// The display-row offset of the top visible row (vertical scroll).
    pub scroll: usize,
    /// The display column preserved across consecutive up/down moves.
    pub preferred_col: usize,
    /// Whether the previous operation was a vertical (up/down) move, so the
    /// preferred column is only (re)captured on the first move of a run.
    pub vertical_sticky: bool,
}

// ---------------------------------------------------------------------------
// What each operation does
// ---------------------------------------------------------------------------

/// `f` holds `lines` with the cursor at (`row`, `col`), the vertical run
/// ended, the given preferred column and scroll, and `o`'s configuration.
pub open spec fn edited(o: Textarea, f: Textarea, lines: Seq<Seq<char>>, row: int, col: int, pref: int, scroll: int) -> bool {
    &&& f.text_lines() == lines
    &&& f.row == row
    &&& f.col == col
    &&& !f.vertical_sticky
    &&& f.preferred_col == pref
    &&& f.scroll == scroll
    &&& Textarea::same_config(&o, &f)
}

/// The usual end of an edit or horizontal move: the preferred column is
/// re-captured from the new caret and the window scrolls to keep it visible.
pub open spec fn settled(o: Textarea, f: Textarea, lines: Seq<Seq<char>>, row: int, col: int) -> bool {
    edited(o, f, lines, row, col,
        current_col_spec(lines, o.width, row, col),
        visible_scroll_spec(lines, o.width, o.height, row, col, o.scroll as int))
}

/// Nothing observable changed.
pub open spec fn unchanged(o: Textarea, f: Textarea) -> bool {
    &&& f.text_lines() == o.text_lines()
    &&& f.row == o.row
    &&& f.col == o.col
    &&& f.vertical_sticky == o.vertical_sticky
    &&& f.preferred_col == o.preferred_col
    &&& f.scroll == o.scroll
    &&& Textarea::same_config(&o, &f)
}

/// The cursor column clamped to the current line.
pub open spec fn clamped_col(o: Textarea) -> int {
    let len = o.text_lines()[o.row as int].len() as int;
    if o.col < len { o.col as int } else { len }
}

/// `insert_char`: `ch` goes in at the (clamped) cursor, which moves past it.
pub open spec fn insert_post(o: Textarea, f: Textarea, ch: char) -> bool {
    let ls = o.text_lines();
    let r = o.row as int;
    let i = clamped_col(o);
    settled(o, f, ls.update(r, ls[r].insert(i, ch)), r, i + 1)
}

/// `delete_backward`: remove the char before the cursor, or join the line
/// into the previous one (cursor at the join), or nothing at the very start.
pub open spec fn delete_backward_post(o: Textarea, f: Textarea) -> bool {
    let ls = o.text_lines();
    let r = o.row as int;
    let c = o.col as int;
    if c > 0 {
        settled(o, f, ls.update(r, ls[r].remove(c - 1)), r, c - 1)
    } else if r > 0 {
        settled(o, f, ls.remove(r).update(r - 1, ls[r - 1] + ls[r]), r - 1, ls[r - 1].len() as int)
    } else {
        edited(o, f, ls, r, c, current_col_spec(ls, o.width, r, c), o.scroll as int)
    }
}

/// `delete_forward`: remove the char under the cursor, or join the next
/// line into this one, or nothing at the very end.
pub open spec fn delete_forward_post(o: Textarea, f: Textarea) -> bool {
    let ls = o.text_lines();
    let r = o.row as int;
    let c = o.col as int;
    if c < ls[r].len() {
        settled(o, f, ls.update(r, ls[r].remove(c)), r, c)
    } else if r + 1 < ls.len() {
        settled(o, f, ls.remove(r + 1).update(r, ls[r] + ls[r + 1]), r, c)
    } else {
        edited(o, f, ls, r, c, current_col_spec(ls, o.width, r, c), o.scroll as int)
    }
}

/// `split_line`: the tail after the (clamped) cursor becomes a new line
/// below, and the cursor moves to its start.
pub open spec fn split_post(o: Textarea, f: Textarea) -> bool {
    let ls = o.text_lines();
    let r = o.row as int;
    let i = clamped_col(o);
    let nl = ls.update(r, ls[r].take(i)).insert(r + 1, ls[r].skip(i));
    edited(o, f, nl, r + 1, 0, 0, visible_scroll_spec(nl, o.width, o.height, r + 1, 0, o.scroll as int))
}

/// `move_left`: one char left, or to the end of the previous line.
pub open spec fn move_left_post(o: Textarea, f: Textarea) -> bool {
    let ls = o.text_lines();
    let r = o.row as int;
    let c = o.col as int;
    if c > 0 {
        settled(o, f, ls, r, c - 1)
    } else if r > 0 {
        settled(o, f, ls, r - 1, ls[r - 1].len() as int)
    } else {
        settled(o, f, ls, r, c)
    }
}

/// `move_right`: one char right, or to the start of the next line.
pub open spec fn move_right_post(o: Textarea, f: Textarea) -> bool {
    let ls = o.text_lines();
    let r = o.row as int;
    let c = o.col as int;
    if c < ls[r].len() {
        settled(o, f, ls, r, c + 1)
    } else if r + 1 < ls.len() {
        settled(o, f, ls, r + 1, 0)
    } else {
        settled(o, f, ls, r, c)
    }
}

/// `move_home`: to the start of the current line.
pub open spec fn move_home_post(o: Textarea, f: Textarea) -> bool {
    let ls = o.text_lines();
    edited(o, f, ls, o.row as int, 0, 0, visible_scroll_spec(ls, o.width, o.height, o.row as int, 0, o.scroll as int))
}

/// `move_end`: to the end of the current line.
pub open spec fn move_end_post(o: Textarea, f: Textarea) -> bool {
    let ls = o.text_lines();
    settled(o, f, ls, o.row as int, ls[o.row as int].len() as int)
}

/// A vertical move to display row `target`: the preferred column is
/// captured on the first move of a run and kept after, the cursor lands on
/// that column of the target display line (clamped), and the window scrolls
/// to keep it visible.
pub open spec fn moved_to_row(o: Textarea, f: Textarea, target: int) -> bool {
    let ls = o.text_lines();
    let pref = if o.vertical_sticky { o.preferred_col as int } else { o.caret_col() };
    let (r, off) = logical_at_spec(ls, o.width, target);
    let c = char_at_col_spec(wrapped_spec(ls, o.width, r), off, pref);
    &&& f.text_lines() == ls
    &&& f.row == r
    &&& f.col == c
    &&& f.vertical_sticky
    &&& f.preferred_col == pref
    &&& f.scroll == visible_scroll_spec(ls, o.width, o.height, r, c, o.scroll as int)
    &&& Textarea::same_config(&o, &f)
}

/// `move_up`: one display line up; nothing on the top display line.
pub open spec fn move_up_post(o: Textarea, f: Textarea) -> bool {
    if o.caret_row() == 0 { unchanged(o, f) } else { moved_to_row(o, f, o.caret_row() - 1) }
}

/// `move_down`: one display line down; nothing on the bottom display line.
pub open spec fn move_down_post(o: Textarea, f: Textarea) -> bool {
    if o.caret_row() + 1 >= o.total_rows() { unchanged(o, f) } else { moved_to_row(o, f, o.caret_row() + 1) }
}

/// The effect of one key press and the action it reports.
pub open spec fn key_post(o: Textarea, f: Textarea, key: Key, a: KeyAction) -> bool {
    &&& a == (if key == Key::Escape { KeyAction::Cancel } else { KeyAction::NoAction })
    &&& match key {
        Key::Char(c) => insert_post(o, f, c),
        Key::Backspace => delete_backward_post(o, f),
        Key::Delete => delete_forward_post(o, f),
        Key::Left => move_left_post(o, f),
        Key::Right => move_right_post(o, f),
        Key::Up => move_up_post(o, f),
        Key::Down => move_down_post(o, f),
        Key::Home => move_home_post(o, f),
        Key::End => move_end_post(o, f),
        Key::Enter => split_post(o, f),
        Key::Escape => unchanged(o, f),
        Key::Tab => unchanged(o, f),
    }
}

proof fn lemma_rows_before_ge(lines: Seq<Seq<char>>, width: Option<usize>, row: int)
    requires
        0 <= row <= lines.len(),
    ensures
        rows_before(lines, width, row) >= row,
    decreases row,
{
    if row > 0 {
        lemma_rows_before_ge(lines, width, row - 1);
        assert(wrapped_spec(lines, width, row - 1).len() >= 1);
    }
}

// ---------------------------------------------------------------------------
// Laws
// ---------------------------------------------------------------------------

proof fn lemma_join_extend_last(ls: Seq<Seq<char>>, c: char)
    requires
        ls.len() >= 1,
    ensures
        join_spec(ls.update(ls.len() - 1, ls.last().push(c))) == join_spec(ls).push(c),
{
    let up = ls.update(ls.len() - 1, ls.last().push(c));
    if ls.len() > 1 {
        assert(up.drop_last() =~= ls.drop_last());
        assert(join_spec(up) =~= join_spec(ls).push(c));
    }
}

/// Joining the lines that `with_value` splits a text into gives the text
/// back: `Textarea::with_value(s).text() == s`.
pub proof fn join_split_round_trip(s: Seq<char>)
    ensures
        join_spec(split_spec(s)) == s,
    decreases s.len(),
{
    if s.len() > 0 {
        let prev = split_spec(s.drop_last());
        join_split_round_trip(s.drop_last());
        lemma_split_nonempty(s.drop_last());
        if s.last() == '\n' {
            assert(prev.push(Seq::empty()).drop_last() =~= prev);
            assert(join_spec(prev.push(Seq::empty())) =~= s);
        } else {
            lemma_join_extend_last(prev, s.last());
            assert(s.drop_last().push(s.last()) =~= s);
        }
    }
}

proof fn lemma_split_append_line(s: Seq<char>, l: Seq<char>)
    requires
        !l.contains('\n'),
    ensures
        split_spec(s + l) == split_spec(s).update(split_spec(s).len() - 1, split_spec(s).last() + l),
    decreases l.len(),
{
    lemma_split_nonempty(s);
    if l.len() == 0 {
        assert(s + l =~= s);
        assert(split_spec(s).last() + l =~= split_spec(s).last());
        assert(split_spec(s).update(split_spec(s).len() - 1, split_spec(s).last()) =~= split_spec(s));
    } else {
        let l0 = l.drop_last();
        assert(!l0.contains('\n')) by {
            if l0.contains('\n') {
                let k = choose|k: int| 0 <= k < l0.len() && l0[k] == '\n';
                assert(l[k] == '\n');
            }
        }
        lemma_split_append_line(s, l0);
        assert((s + l).drop_last() =~= s + l0);
        assert(l.last() != '\n') by {
            assert(l[l.len() - 1] == l.last());
        }
        lemma_split_nonempty(s + l0);
        let p = split_spec(s);
        let prev = split_spec(s + l0);
        assert((s + l).last() == l.last());
        assert(split_spec(s + l) == prev.update(prev.len() - 1, prev.last().push(l.last())));
        assert(prev.len() == p.len());
        assert(prev.last() == p.last() + l0);
        assert((p.last() + l0).push(l.last()) =~= p.last() + l);
        assert(split_spec(s + l) =~= p.update(p.len() - 1, p.last() + l));
    }
}

/// Splitting the joined text of lines that hold no `\n` gives the lines
/// back: `Textarea::with_lines(ls).text()` read by `with_value` is `ls`.
pub proof fn split_join_round_trip(ls: Seq<Seq<char>>)
    requires
        ls.len() >= 1,
        forall|i: int| 0 <= i < ls.len() ==> !(#[trigger] ls[i]).contains('\n'),
    ensures
        split_spec(join_spec(ls)) == ls,
    decreases ls.len(),
{
    if ls.len() == 1 {
        lemma_split_append_line(Seq::empty(), ls[0]);
        assert(Seq::<char>::empty() + ls[0] =~= ls[0]);
        assert(Seq::<char>::empty() + ls[0] =~= ls[0]);
        assert(split_spec(ls[0]) =~= ls);
    } else {
        let d = ls.drop_last();
        assert forall|i: int| 0 <= i < d.len() implies !(#[trigger] d[i]).contains('\n') by {
            assert(d[i] == ls[i]);
        }
        split_join_round_trip(d);
        let j = join_spec(d);
        let jn = j + seq!['\n'];
        assert(jn.drop_last() =~= j);
        assert(split_spec(jn) == split_spec(j).push(Seq::empty()));
        assert(ls.last() == ls[ls.len() - 1]);
        lemma_split_append_line(jn, ls.last());
        assert(Seq::<char>::empty() + ls.last() =~= ls.last());
        assert(split_spec(join_spec(ls)) =~= ls);
    }
}

/// The scroll window always holds the caret: with a window of `h` rows
/// (at least one), the caret's display row lies in `scroll..scroll + h`
/// after any scroll adjustment.
pub proof fn scroll_keeps_caret_visible(
    lines: Seq<Seq<char>>,
    width: Option<usize>,
    h: usize,
    row: int,
    col: int,
    scroll: int,
)
    ensures
        ({
            let s = visible_scroll_spec(lines, width, Some(h), row, col, scroll);
            let caret = caret_row_spec(lines, width, row, col);
            let hh = if h < 1 { 1 } else { h as int };
            s <= caret < s + hh
        }),
{
}

/// Backspace right after typing a character removes it again: the lines
/// are back as they were and the cursor is where the character went in.
pub proof fn insert_then_backspace_restores(o: Textarea, m: Textarea, f: Textarea, ch: char)
    requires
        o.cursor_ok(),
        insert_post(o, m, ch),
        delete_backward_post(m, f),
    ensures
        f.text_lines() == o.text_lines(),
        f.row == o.row,
        f.col == clamped_col(o),
{
    let ls = o.text_lines();
    let r = o.row as int;
    let i = clamped_col(o);
    assert(ls[r].insert(i, ch).remove(i) =~= ls[r]);
    assert(ls.update(r, ls[r].insert(i, ch)).update(r, ls[r]) =~= ls);
}

/// Backspace at the start of the line that Enter just made joins it back:
/// the lines are as before and the cursor is at the split point.
pub proof fn split_then_backspace_restores(o: Textarea, m: Textarea, f: Textarea)
    requires
        o.cursor_ok(),
        split_post(o, m),
        delete_backward_post(m, f),
    ensures
        f.text_lines() == o.text_lines(),
        f.row == o.row,
        f.col == clamped_col(o),
{
    let ls = o.text_lines();
    let r = o.row as int;
    let i = clamped_col(o);
    let nl = ls.update(r, ls[r].take(i)).insert(r + 1, ls[r].skip(i));
    assert(nl[r] + nl[r + 1] =~= ls[r]);
    assert(nl.remove(r + 1).update(r, nl[r] + nl[r + 1]) =~= ls);
}

/// Within a run of vertical moves the preferred display column is the one
/// captured by the first move of the run.
pub proof fn vertical_run_keeps_column(o: Textarea, m: Textarea, f: Textarea, t1: int, t2: int)
    requires
        moved_to_row(o, m, t1),
        moved_to_row(m, f, t2),
    ensures
        f.preferred_col == m.preferred_col,
        m.preferred_col == (if o.vertical_sticky { o.preferred_col as int } else { o.caret_col() }),
{
}

impl Textarea {
    /// The characters of each logical line.
    pub open spec fn text_lines(&self) -> Seq<Seq<char>> {
        lines_of(self.lines@)
    }

    /// The cursor indexes an existing logical line.
    pub open spec fn cursor_ok(&self) -> bool {
        self.row < self.lines@.len()
    }

    /// The wrapped display lines of logical line `row`.
    pub open spec fn wrapped_at(&self, row: int) -> Seq<(Seq<char>, int)> {
        wrapped_spec(self.text_lines(), self.width, row)
    }

    /// The caret's display row.
    pub open spec fn caret_row(&self) -> int {
        caret_row_spec(self.text_lines(), self.width, self.row as int, self.col as int)
    }

    /// The caret's display column within its display line.
    pub open spec fn caret_col(&self) -> int {
        current_col_spec(self.text_lines(), self.width, self.row as int, self.col as int)
    }

    /// The total number of display lines.
    pub open spec fn total_rows(&self) -> int {
        total_rows_spec(self.text_lines(), self.width)
    }

    /// The configuration fields (styles, frame, caret flag, wrap width and
    /// window height) of `a` and `b` agree.
    pub open spec fn same_config(a: &Textarea, b: &Textarea) -> bool {
        &&& a.style@ == b.style@
        &&& a.frame_style@ == b.frame_style@
        &&& a.padding == b.padding
        &&& a.border == b.border
        &&& a.caret_visible == b.caret_visible
        &&& a.width == b.width
        &&& a.height == b.height
    }

    /// A blank textarea's fields besides its lines and cursor.
    pub open spec fn default_config(&self) -> bool {
        &&& self.style@ == plain_style()
        &&& self.frame_style@ == plain_style()
        &&& self.padding == 1
        &&& self.border == 0
        &&& self.caret_visible
        &&& self.width is None
        &&& self.height is None
        &&& self.scroll == 0
        &&& self.preferred_col == 0
        &&& !self.vertical_sticky
    }

    /// An empty textarea with a single blank line.
    pub fn new() -> (t: Self)
        ensures
            t.text_lines() == seq![Seq::<char>::empty()],
            t.row == 0,
            t.col == 0,
            t.default_config(),
    {
        let mut lines: Vec<String> = Vec::new();
        lines.push(String::new());
        let t = Textarea {
            lines,
            row: 0,
            col: 0,
            style: Style::new(),
            frame_style: Style::new(),
            padding: 1,
            border: 0,
            caret_visible: true,
            width: None,
            height: None,
            scroll: 0,
            preferred_col: 0,
            vertical_sticky: false,
        };
        assert(t.text_lines() =~= seq![Seq::<char>::empty()]);
        t
    }

    /// A textarea holding the given logical lines, with the cursor at the end
    /// of the last line. Given no lines it holds one empty line, as
    /// [`new`](Self::new) does, so the cursor row always indexes a line.
    pub fn with_lines(lines: Vec<String>) -> (t: Self)
        ensures
            t.text_lines() == (if lines@.len() == 0 { seq![Seq::<char>::empty()] } else { lines_of(lines@) }),
            t.row == (if lines@.len() == 0 { 0 } else { lines@.len() - 1 }),
            t.col == (if lines@.len() == 0 { 0 } else { lines@.last()@.len() }),
            t.row < t.text_lines().len(),
            t.cursor_ok(),
            t.col <= t.text_lines()[t.row as int].len(),
            t.default_config(),
    {
        if lines.len() == 0 {
            return Textarea::new();
        }
        let row: usize = lines.len() - 1;
        let col: usize = lines[row].as_str().unicode_len();
        let mut t = Textarea::new();
        t.lines = lines;
        t.row = row;
        t.col = col;
        t
    }

    /// A textarea holding `value`, split into logical lines on `\n`, with the
    /// cursor at the end of the last line.
    pub fn with_value(value: &str) -> (t: Self)
        ensures
            t.text_lines() == split_spec(value@),
            t.row == split_spec(value@).len() - 1,
            t.col == split_spec(value@).last().len(),
            t.default_config(),
    {
        let cs = chars_of(value);
        let mut done: Vec<String> = Vec::new();
        let mut cur: Vec<char> = Vec::new();
        let mut i: usize = 0;
        while i < cs.len()
            invariant
                i <= cs@.len(),
                cs@ == value@,
                lines_of(done@).push(cur@) == split_spec(cs@.take(i as int)),
            decreases cs@.len() - i,
        {
            let c = cs[i];
            let ghost before = cs@.take(i as int);
            assert(cs@.take(i + 1).drop_last() =~= before);
            proof { lemma_split_nonempty(before); }
            if c == '\n' {
                let line = string_of(&cur);
                done.push(line);
                cur = Vec::new();
                assert(lines_of(done@).push(cur@) =~= split_spec(before).push(Seq::empty()));
            } else {
                cur.push(c);
                let ghost prev = split_spec(before);
                assert(lines_of(done@).push(cur@) =~= prev.update(prev.len() - 1, prev.last().push(c)));
            }
            i += 1;
        }
        assert(cs@.take(cs@.len() as int) =~= cs@);
        let last = string_of(&cur);
        done.push(last);
        assert(lines_of(done@) =~= split_spec(value@));
        let t = Textarea::with_lines(done);
        t
    }

    /// Builder: set the entered-text style.
    pub fn style(self, style: Style) -> (t: Self)
        ensures
            t.style@ == style@,
            t.frame_style@ == self.frame_style@,
            t.text_lines() == self.text_lines(),
            t.row == self.row && t.col == self.col && t.scroll == self.scroll,
            t.padding == self.padding && t.border == self.border && t.caret_visible == self.caret_visible,
            t.width == self.width && t.height == self.height,
            t.preferred_col == self.preferred_col && t.vertical_sticky == self.vertical_sticky,
    {
        Textarea { style, ..self }
    }

    /// Builder: set the field frame style (background, border).
    pub fn frame_style(self, style: Style) -> (t: Self)
        ensures
            t.frame_style@ == style@,
            t.style@ == self.style@,
            t.text_lines() == self.text_lines(),
            t.row == self.row && t.col == self.col && t.scroll == self.scroll,
            t.padding == self.padding && t.border == self.border && t.caret_visible == self.caret_visible,
            t.width == self.width && t.height == self.height,
            t.preferred_col == self.preferred_col && t.vertical_sticky == self.vertical_sticky,
    {
        Textarea { frame_style: style, ..self }
    }

    /// Builder: set the field padding in cells (each side).
    pub fn padding(self, cells: u16) -> (t: Self)
        ensures
            t.padding == cells,
            t.style@ == self.style@ && t.frame_style@ == self.frame_style@,
            t.text_lines() == self.text_lines(),
            t.row == self.row && t.col == self.col && t.scroll == self.scroll,
            t.border == self.border && t.caret_visible == self.caret_visible,
            t.width == self.width && t.height == self.height,
            t.preferred_col == self.preferred_col && t.vertical_sticky == self.vertical_sticky,
    {
        Textarea { padding: cells, ..self }
    }

    /// Builder: set the field border width in cells (each side).
    pub fn border(self, cells: u16) -> (t: Self)
        ensures
            t.border == cells,
            t.style@ == self.style@ && t.frame_style@ == self.frame_style@,
            t.text_lines() == self.text_lines(),
            t.row == self.row && t.col == self.col && t.scroll == self.scroll,
            t.padding == self.padding && t.caret_visible == self.caret_visible,
            t.width == self.width && t.height == self.height,
            t.preferred_col == self.preferred_col && t.vertical_sticky == self.vertical_sticky,
    {
        Textarea { border: cells, ..self }
    }

    /// Builder: hide the caret.
    pub fn hide_caret(self) -> (t: Self)
        ensures
            !t.caret_visible,
            t.style@ == self.style@ && t.frame_style@ == self.frame_style@,
            t.text_lines() == self.text_lines(),
            t.row == self.row && t.col == self.col && t.scroll == self.scroll,
            t.padding == self.padding && t.border == self.border,
            t.width == self.width && t.height == self.height,
            t.preferred_col == self.preferred_col && t.vertical_sticky == self.vertical_sticky,
    {
        Textarea { caret_visible: false, ..self }
    }

    /// Builder: constrain the text area to `cells` columns and soft-wrap long
    /// lines at that width.
    pub fn with_width(self, cells: usize) -> (t: Self)
        ensures
            t.width == Some(cells),
            t.style@ == self.style@ && t.frame_style@ == self.frame_style@,
            t.text_lines() == self.text_lines(),
            t.row == self.row && t.col == self.col && t.scroll == self.scroll,
            t.padding == self.padding && t.border == self.border && t.caret_visible == self.caret_visible,
            t.height == self.height,
            t.preferred_col == self.preferred_col && t.vertical_sticky == self.vertical_sticky,
    {
        Textarea { width: Some(cells), ..self }
    }

    /// Builder: limit the visible window to `rows` display lines.
    pub fn with_height(self, rows: usize) -> (t: Self)
        ensures
            t.height == Some(rows),
            t.style@ == self.style@ && t.frame_style@ == self.frame_style@,
            t.text_lines() == self.text_lines(),
            t.row == self.row && t.col == self.col && t.scroll == self.scroll,
            t.padding == self.padding && t.border == self.border && t.caret_visible == self.caret_visible,
            t.width == self.width,
            t.preferred_col == self.preferred_col && t.vertical_sticky == self.vertical_sticky,
    {
        Textarea { height: Some(rows), ..self }
    }

    // --- Wrap + display-line model -----------------------------------------

    /// The whole text joined by `\n`.
    pub fn text(&self) -> (s: String)
        ensures
            s@ == join_spec(self.text_lines()),
    {
        let mut out: Vec<char> = Vec::new();
        let mut i: usize = 0;
        while i < self.lines.len()
            invariant
                i <= self.lines@.len(),
                out@ == join_spec(self.text_lines().take(i as int)),
            decreases self.lines@.len() - i,
        {
            let ghost before = self.text_lines().take(i as int);
            let line = chars_of(self.lines[i].as_str());
            assert(self.text_lines().take(i + 1).drop_last() =~= before);
            if i > 0 {
                out.push('\n');
            }
            let mut k: usize = 0;
            let ghost start = out@;
            while k < line.len()
                invariant
                    k <= line@.len(),
                    out@ == start + line@.take(k as int),
                decreases line@.len() - k,
            {
                out.push(line[k]);
                k += 1;
                assert(out@ =~= start + line@.take(k as int));
            }
            assert(line@.take(line@.len() as int) =~= line@);
            i += 1;
            if i == 1 {
                assert(out@ =~= join_spec(self.text_lines().take(i as int)));
            } else {
                assert(out@ =~= join_spec(self.text_lines().take(i as int)));
            }
        }
        assert(self.text_lines().take(self.lines@.len() as int) =~= self.text_lines());
        string_of(&out)
    }

    /// The wrapped display lines of `lines[row]` plus the char index (within
    /// the logical line) where each display line starts.
    fn wrapped_with_offsets(&self, row: usize) -> (r: Vec<(String, usize)>)
        requires
            row < self.lines@.len(),
        ensures
            r@.len() == self.wrapped_at(row as int).len(),
            forall|k: int| 0 <= k < r@.len() ==> (#[trigger] r@[k]).0@ == self.wrapped_at(row as int)[k].0
                && r@[k].1 == self.wrapped_at(row as int)[k].1,
            r@.len() >= 1,
            forall|k: int| 0 <= k < r@.len() ==> (#[trigger] r@[k]).1 + r@[k].0@.len() <= self.lines@[row as int]@.len(),
            self.width is Some ==> self.lines@[row as int]@.len() <= usize::MAX,
    {
        match self.width {
            None => {
                let mut v: Vec<(String, usize)> = Vec::new();
                v.push((self.lines[row].clone(), 0));
                v
            },
            Some(w) => wrap_line_with_offsets(self.lines[row].as_str(), w),
        }
    }

    /// The wrapped display lines of `lines[row]` (text only).
    pub fn wrapped(&self, row: usize) -> (r: Vec<String>)
        requires
            row < self.lines@.len(),
        ensures
            r@.len() == self.wrapped_at(row as int).len(),
            forall|k: int| 0 <= k < r@.len() ==> (#[trigger] r@[k])@ == self.wrapped_at(row as int)[k].0,
    {
        let w = self.wrapped_with_offsets(row);
        let mut out: Vec<String> = Vec::new();
        let mut k: usize = 0;
        while k < w.len()
            invariant
                k <= w@.len(),
                w@.len() == self.wrapped_at(row as int).len(),
                forall|j: int| 0 <= j < w@.len() ==> (#[trigger] w@[j]).0@ == self.wrapped_at(row as int)[j].0,
                out@.len() == k,
                forall|j: int| 0 <= j < k ==> (#[trigger] out@[j])@ == self.wrapped_at(row as int)[j].0,
            decreases w@.len() - k,
        {
            out.push(w[k].0.clone());
            k += 1;
        }
        out
    }

    /// The number of display lines `lines[row]` occupies.
    fn wrap_count(&self, row: usize) -> (n: usize)
        requires
            row < self.lines@.len(),
        ensures
            n == self.wrapped_at(row as int).len(),
            n >= 1,
    {
        self.wrapped_with_offsets(row).len()
    }

    /// The display row where logical line `row` begins.
    fn display_base(&self, row: usize) -> (b: usize)
        requires
            row <= self.lines@.len(),
        ensures
            b == sat(rows_before(self.text_lines(), self.width, row as int)),
    {
        let mut acc: usize = 0;
        let mut r: usize = 0;
        while r < row
            invariant
                r <= row <= self.lines@.len(),
                acc == sat(rows_before(self.text_lines(), self.width, r as int)),
                rows_before(self.text_lines(), self.width, r as int) >= 0,
            decreases row - r,
        {
            let n = self.wrap_count(r);
            acc = acc.saturating_add(n);
            r += 1;
        }
        acc
    }

    /// The total number of display lines across all logical lines.
    pub fn total_display_rows(&self) -> (n: usize)
        ensures
            n == self.total_rows(),
    {
        self.display_base(self.lines.len())
    }

    /// The display-line offset (within `lines[row]`'s wrapped lines) that
    /// contains char index `col`. A char dropped by the wrap (e.g. a trailing
    /// space at a full row) maps to the display line it trails.
    fn offset_of_col(&self, row: usize, col: usize) -> (o: usize)
        requires
            row < self.lines@.len(),
        ensures
            o == offset_of_col_spec(self.wrapped_at(row as int), col as int),
            o < self.wrapped_at(row as int).len(),
    {
        let wrapped = self.wrapped_with_offsets(row);
        let ghost wr = self.wrapped_at(row as int);
        let mut i: usize = 0;
        while i < wrapped.len()
            invariant
                i <= wrapped@.len(),
                wr == self.wrapped_at(row as int),
                wrapped@.len() == wr.len(),
                wr.len() >= 1,
                forall|k: int| 0 <= k < wrapped@.len() ==> (#[trigger] wrapped@[k]).0@ == wr[k].0
                    && wrapped@[k].1 == wr[k].1,
                offset_from(wr, col as int, 0) == offset_from(wr, col as int, i as int),
            decreases wrapped@.len() - i,
        {
            let start = wrapped[i].1;
            let n = wrapped[i].0.as_str().unicode_len();
            assert(wrapped@[i as int].0@ == wr[i as int].0 && start == wr[i as int].1);
            if col <= start || col - start <= n {
                return i;
            }
            i += 1;
        }
        wrapped.len() - 1
    }

    /// The caret's display row across the whole wrapped text.
    pub fn caret_display_row(&self) -> (r: usize)
        requires
            self.cursor_ok(),
        ensures
            r == self.caret_row(),
    {
        let base = self.display_base(self.row);
        let off = self.offset_of_col(self.row, self.col);
        proof { lemma_rows_before_nonneg(self.text_lines(), self.width, self.row as int); }
        base.saturating_add(off)
    }

    /// The caret's display column within display line `offset` of `row`,
    /// and the char index where that display line starts.
    fn caret_display_in(&self, row: usize, offset: usize) -> (r: (usize, usize))
        requires
            row < self.lines@.len(),
        ensures
            r.0 as int == display_in_spec(self.wrapped_at(row as int), self.col as int, offset as int).0,
            r.1 as int == display_in_spec(self.wrapped_at(row as int), self.col as int, offset as int).1,
    {
        let wrapped = self.wrapped_with_offsets(row);
        let ghost wr = self.wrapped_at(row as int);
        let (dl, start): (Vec<char>, usize) = if offset < wrapped.len() {
            (chars_of(wrapped[offset].0.as_str()), wrapped[offset].1)
        } else {
            (Vec::new(), 0)
        };
        let ghost line = display_line(wr, offset as int).0;
        assert(dl@ == line);
        let d: usize = self.col.saturating_sub(start);
        let local: usize = if d < dl.len() { d } else { dl.len() };
        let mut acc: usize = 0;
        let mut k: usize = 0;
        while k < local
            invariant
                k <= local <= dl@.len(),
                dl@ == line,
                width_upto(line, k as int) >= 0,
                acc == sat(width_upto(line, k as int)),
            decreases local - k,
        {
            let w = char_width(dl[k]) as usize;
            acc = acc.saturating_add(w);
            k += 1;
        }
        (acc, start)
    }

    /// The caret's display column within its own display line.
    pub fn current_display_col(&self) -> (c: usize)
        requires
            self.cursor_ok(),
        ensures
            c == self.caret_col(),
    {
        let offset = self.offset_of_col(self.row, self.col);
        self.caret_display_in(self.row, offset).0
    }

    /// The `(logical row, display-line offset)` for display row `target`.
    /// Past the end: the last display line of the last logical line.
    fn logical_at_display_row(&self, target: usize) -> (r: (usize, usize))
        requires
            self.lines@.len() >= 1,
        ensures
            r.0 as int == logical_at_spec(self.text_lines(), self.width, target as int).0,
            r.1 as int == logical_at_spec(self.text_lines(), self.width, target as int).1,
            r.0 < self.lines@.len(),
            r.1 < self.wrapped_at(r.0 as int).len(),
    {
        let ghost ls = self.text_lines();
        let mut acc: usize = 0;
        let mut r: usize = 0;
        while r < self.lines.len()
            invariant
                r <= self.lines@.len(),
                ls == self.text_lines(),
                self.lines@.len() >= 1,
                acc as int == rows_before(ls, self.width, r as int),
                acc <= target,
                logical_from(ls, self.width, target as int, 0) == logical_from(ls, self.width, target as int, r as int),
            decreases self.lines@.len() - r,
        {
            let n = self.wrap_count(r);
            if target - acc < n {
                return (r, target - acc);
            }
            acc = acc + n;
            r += 1;
        }
        let last = self.lines.len() - 1;
        let n = self.wrap_count(last);
        (last, n - 1)
    }

    /// The char index into `lines[row]` at display column `target_col`
    /// within display line `offset` (a column inside a wide glyph snaps to
    /// that glyph's start; clamped to the display line's end).
    fn char_at_display_col(&self, row: usize, offset: usize, target_col: usize) -> (c: usize)
        requires
            row < self.lines@.len(),
            offset < self.wrapped_at(row as int).len(),
        ensures
            c == char_at_col_spec(self.wrapped_at(row as int), offset as int, target_col as int),
    {
        let wrapped = self.wrapped_with_offsets(row);
        let ghost wr = self.wrapped_at(row as int);
        let dl = chars_of(wrapped[offset].0.as_str());
        let start = wrapped[offset].1;
        let ghost line = wr[offset as int].0;
        assert(wrapped@[offset as int].0@ == line && start == wr[offset as int].1);
        let mut col: usize = 0;
        let mut local: usize = 0;
        while local < dl.len()
            invariant
                local <= dl@.len(),
                dl@ == line,
                col <= target_col,
                fit_from(line, 0, 0, target_col as int) == fit_from(line, local as int, col as int, target_col as int),
            ensures
                local <= dl@.len(),
                fit_from(line, 0, 0, target_col as int) == local,
            decreases dl@.len() - local,
        {
            let w = char_width(dl[local]) as usize;
            if w > target_col - col {
                break;
            }
            col = col + w;
            local += 1;
        }
        start + local
    }
}

impl Textarea {
    // --- Scrolling ---------------------------------------------------------

    /// The scroll offset that keeps the caret's display row inside the
    /// visible window.
    fn visible_scroll(&self) -> (s: usize)
        requires
            self.cursor_ok(),
        ensures
            s == visible_scroll_spec(self.text_lines(), self.width, self.height, self.row as int,
                self.col as int, self.scroll as int),
    {
        match self.height {
            None => 0,
            Some(h0) => {
                let h: usize = if h0 < 1 { 1 } else { h0 };
                let caret = self.caret_display_row();
                if caret < self.scroll {
                    caret
                } else if caret - self.scroll >= h {
                    caret - (h - 1)
                } else {
                    self.scroll
                }
            },
        }
    }

    /// Adjust [`scroll`](Self::scroll) so the caret stays visible.
    pub fn scroll_to_caret(&mut self)
        requires
            old(self).cursor_ok(),
        ensures
            final(self).scroll == visible_scroll_spec(old(self).text_lines(), old(self).width, old(self).height,
                old(self).row as int, old(self).col as int, old(self).scroll as int),
            final(self).text_lines() == old(self).text_lines(),
            final(self).row == old(self).row,
            final(self).col == old(self).col,
            final(self).preferred_col == old(self).preferred_col,
            final(self).vertical_sticky == old(self).vertical_sticky,
            Textarea::same_config(&*old(self), &*final(self)),
    {
        self.scroll = self.visible_scroll();
    }

    /// Re-capture the preferred column and scroll to the caret: the common
    /// end of an edit or horizontal move.
    fn settle(&mut self)
        requires
            old(self).cursor_ok(),
        ensures
            settled(*old(self), *final(self), old(self).text_lines(), old(self).row as int, old(self).col as int)
                || old(self).vertical_sticky,
            !old(self).vertical_sticky ==> settled(*old(self), *final(self), old(self).text_lines(),
                old(self).row as int, old(self).col as int),
    {
        self.preferred_col = self.current_display_col();
        self.scroll_to_caret();
    }

    // --- Editing -----------------------------------------------------------

    /// Insert `ch` at the cursor on the current line and advance past it.
    pub fn insert_char(&mut self, ch: char)
        requires
            old(self).cursor_ok(),
        ensures
            insert_post(*old(self), *final(self), ch),
    {
        self.vertical_sticky = false;
        let ghost ls = self.text_lines();
        let mut chars = chars_of(self.lines[self.row].as_str());
        let i: usize = if self.col < chars.len() { self.col } else { chars.len() };
        chars.insert(i, ch);
        let n = chars.len();
        assert(i < n);
        let line = string_of(&chars);
        self.lines.set(self.row, line);
        self.col = i + 1;
        assert(self.text_lines() =~= ls.update(self.row as int, ls[self.row as int].insert(i as int, ch)));
        self.settle();
    }

    /// Delete the character before the cursor; at the start of a line, join
    /// the line into the previous one (cursor at the join).
    pub fn delete_backward(&mut self)
        requires
            old(self).cursor_ok(),
            old(self).col <= old(self).text_lines()[old(self).row as int].len(),
        ensures
            delete_backward_post(*old(self), *final(self)),
    {
        self.vertical_sticky = false;
        let ghost ls = self.text_lines();
        if self.col > 0 {
            let mut chars = chars_of(self.lines[self.row].as_str());
            chars.remove(self.col - 1);
            let line = string_of(&chars);
            self.lines.set(self.row, line);
            self.col = self.col - 1;
            assert(self.text_lines() =~= ls.update(self.row as int, ls[self.row as int].remove(self.col as int)));
        } else if self.row > 0 {
            let prev_len = self.lines[self.row - 1].as_str().unicode_len();
            let tail = self.lines.remove(self.row);
            self.row = self.row - 1;
            let joined = crate::text::concat(self.lines[self.row].as_str(), tail.as_str());
            self.lines.set(self.row, joined);
            self.col = prev_len;
            assert(self.text_lines() =~= ls.remove(self.row + 1).update(self.row as int,
                ls[self.row as int] + ls[self.row + 1]));
        } else {
            self.preferred_col = self.current_display_col();
            return;
        }
        self.settle();
    }

    /// Delete the character under the cursor; at the end of a line, join the
    /// next line into this one.
    pub fn delete_forward(&mut self)
        requires
            old(self).cursor_ok(),
        ensures
            delete_forward_post(*old(self), *final(self)),
    {
        self.vertical_sticky = false;
        let ghost ls = self.text_lines();
        let line_len = self.lines[self.row].as_str().unicode_len();
        if self.col < line_len {
            let mut chars = chars_of(self.lines[self.row].as_str());
            chars.remove(self.col);
            let line = string_of(&chars);
            self.lines.set(self.row, line);
            assert(self.text_lines() =~= ls.update(self.row as int, ls[self.row as int].remove(self.col as int)));
        } else if self.row < self.lines.len() - 1 {
            let tail = self.lines.remove(self.row + 1);
            let joined = crate::text::concat(self.lines[self.row].as_str(), tail.as_str());
            self.lines.set(self.row, joined);
            assert(self.text_lines() =~= ls.remove(self.row + 1).update(self.row as int,
                ls[self.row as int] + ls[self.row + 1]));
        } else {
            self.preferred_col = self.current_display_col();
            return;
        }
        self.settle();
    }

    /// Split the current line at the cursor (Enter): the tail becomes a new
    /// line below it and the cursor moves to the start of the new line.
    pub fn split_line(&mut self)
        requires
            old(self).cursor_ok(),
        ensures
            split_post(*old(self), *final(self)),
    {
        self.vertical_sticky = false;
        let ghost ls = self.text_lines();
        let chars = chars_of(self.lines[self.row].as_str());
        let i: usize = if self.col < chars.len() { self.col } else { chars.len() };
        let head = crate::text::string_of_range(&chars, 0, i);
        let tail = crate::text::string_of_range(&chars, i, chars.len());
        self.lines.set(self.row, head);
        let n = self.lines.len();
        assert(self.row < n);
        self.lines.insert(self.row + 1, tail);
        self.row = self.row + 1;
        self.col = 0;
        self.preferred_col = 0;
        assert(self.text_lines() =~= ls.update(self.row - 1, ls[self.row - 1].take(i as int))
            .insert(self.row as int, ls[self.row - 1].skip(i as int)));
        self.scroll_to_caret();
    }

    /// Clear every line and return the cursor to the start.
    pub fn clear(&mut self)
        ensures
            edited(*old(self), *final(self), seq![Seq::<char>::empty()], 0, 0, 0, 0),
    {
        self.vertical_sticky = false;
        let mut lines: Vec<String> = Vec::new();
        lines.push(String::new());
        self.lines = lines;
        self.row = 0;
        self.col = 0;
        self.preferred_col = 0;
        self.scroll = 0;
        assert(self.text_lines() =~= seq![Seq::<char>::empty()]);
    }

    // --- Navigation --------------------------------------------------------

    /// Move the cursor one character left; at the start of a line, jump to
    /// the end of the previous line.
    pub fn move_left(&mut self)
        requires
            old(self).cursor_ok(),
        ensures
            move_left_post(*old(self), *final(self)),
    {
        self.vertical_sticky = false;
        if self.col > 0 {
            self.col = self.col - 1;
        } else if self.row > 0 {
            self.row = self.row - 1;
            self.col = self.lines[self.row].as_str().unicode_len();
        }
        self.settle();
    }

    /// Move the cursor one character right; at the end of a line, jump to the
    /// start of the next line.
    pub fn move_right(&mut self)
        requires
            old(self).cursor_ok(),
        ensures
            move_right_post(*old(self), *final(self)),
    {
        self.vertical_sticky = false;
        let line_len = self.lines[self.row].as_str().unicode_len();
        if self.col < line_len {
            self.col = self.col + 1;
        } else if self.row < self.lines.len() - 1 {
            self.row = self.row + 1;
            self.col = 0;
        }
        self.settle();
    }

    /// Move the cursor to the start of the current line.
    pub fn move_home(&mut self)
        requires
            old(self).cursor_ok(),
        ensures
            move_home_post(*old(self), *final(self)),
    {
        self.vertical_sticky = false;
        self.col = 0;
        self.preferred_col = 0;
        self.scroll_to_caret();
    }

    /// Move the cursor to the end of the current line.
    pub fn move_end(&mut self)
        requires
            old(self).cursor_ok(),
        ensures
            move_end_post(*old(self), *final(self)),
    {
        self.vertical_sticky = false;
        self.col = self.lines[self.row].as_str().unicode_len();
        self.settle();
    }

    /// Move the cursor to display row `target`, keeping the preferred
    /// display column (clamped to the target display line).
    fn move_to_display_row(&mut self, target: usize)
        requires
            old(self).cursor_ok(),
        ensures
            final(self).cursor_ok(),
            final(self).row as int == logical_at_spec(old(self).text_lines(), old(self).width, target as int).0,
            final(self).col as int == char_at_col_spec(
                wrapped_spec(old(self).text_lines(), old(self).width, final(self).row as int),
                logical_at_spec(old(self).text_lines(), old(self).width, target as int).1,
                old(self).preferred_col as int),
            final(self).text_lines() == old(self).text_lines(),
            final(self).preferred_col == old(self).preferred_col,
            final(self).vertical_sticky == old(self).vertical_sticky,
            final(self).scroll == old(self).scroll,
            Textarea::same_config(&*old(self), &*final(self)),
    {
        let (row, offset) = self.logical_at_display_row(target);
        self.row = row;
        self.col = self.char_at_display_col(row, offset, self.preferred_col);
    }

    /// Move the cursor one *display line* up: within a soft-wrapped logical
    /// line this moves to the display line above; at the top display line of
    /// a logical line it moves to the last display line of the previous
    /// logical line. The display column from the first vertical move of a
    /// run is preserved (clamped to each target line).
    pub fn move_up(&mut self)
        requires
            old(self).cursor_ok(),
        ensures
            move_up_post(*old(self), *final(self)),
    {
        let display_row = self.caret_display_row();
        if display_row == 0 {
            return;
        }
        if !self.vertical_sticky {
            self.preferred_col = self.current_display_col();
            self.vertical_sticky = true;
        }
        self.move_to_display_row(display_row - 1);
        self.scroll_to_caret();
    }

    /// Move the cursor one *display line* down (the mirror of
    /// [`move_up`](Self::move_up)); at the bottom display line it sticks.
    pub fn move_down(&mut self)
        requires
            old(self).cursor_ok(),
        ensures
            move_down_post(*old(self), *final(self)),
    {
        let display_row = self.caret_display_row();
        let total = self.total_display_rows();
        proof {
            lemma_rows_before_ge(self.text_lines(), self.width, self.lines@.len() as int);
        }
        if display_row >= total - 1 {
            return;
        }
        if !self.vertical_sticky {
            self.preferred_col = self.current_display_col();
            self.vertical_sticky = true;
        }
        self.move_to_display_row(display_row + 1);
        self.scroll_to_caret();
    }

    /// Feed one key press: apply the edit and return the app-facing action.
    /// Enter splits the line (an edit, so the action is `NoAction`); Escape
    /// cancels.
    pub fn handle_key(&mut self, key: Key) -> (a: KeyAction)
        requires
            old(self).cursor_ok(),
            key == Key::Backspace ==> old(self).col <= old(self).text_lines()[old(self).row as int].len(),
        ensures
            key_post(*old(self), *final(self), key, a),
    {
        match key {
            Key::Char(c) => {
                self.insert_char(c);
                KeyAction::NoAction
            },
            Key::Backspace => {
                self.delete_backward();
                KeyAction::NoAction
            },
            Key::Delete => {
                self.delete_forward();
                KeyAction::NoAction
            },
            Key::Left => {
                self.move_left();
                KeyAction::NoAction
            },
            Key::Right => {
                self.move_right();
                KeyAction::NoAction
            },
            Key::Up => {
                self.move_up();
                KeyAction::NoAction
            },
            Key::Down => {
                self.move_down();
                KeyAction::NoAction
            },
            Key::Home => {
                self.move_home();
                KeyAction::NoAction
            },
            Key::End => {
                self.move_end();
                KeyAction::NoAction
            },
            Key::Enter => {
                self.split_line();
                KeyAction::NoAction
            },
            Key::Escape => KeyAction::Cancel,
            Key::Tab => KeyAction::NoAction,
        }
    }
}

impl Default for Textarea {
    /// An empty textarea with a single blank line.
    fn default() -> (t: Self)
        ensures
            t.text_lines() == seq![Seq::<char>::empty()],
            t.row == 0,
            t.col == 0,
            t.default_config(),
    {
        Textarea::new()
    }
}

// ---------------------------------------------------------------------------
// Materializing the visible window into a scene
// ---------------------------------------------------------------------------

/// The scene after one display-line leaf is added under `parent`: a text
/// node holding `text`, with a `caret` prop when `caret` is set and a
/// `width` prop when `width` is set.
pub open spec fn leaf_step(
    v: SceneView,
    parent: u64,
    text: Seq<char>,
    style: StyleView,
    caret: Option<i64>,
    width: Option<i64>,
) -> SceneView {
    let c = v.next_id as u64;
    let v1 = written(
        added(v, parent, c, v.nodes[parent].children.push(c), NodeKind::Text, style),
        c,
        NodeView {
            props: Map::<Seq<char>, PropValueView>::empty().insert("text"@, PropValueView::Str(text)),
            ..fresh_node(NodeKind::Text, style, Some(parent))
        },
    );
    let v2 = match caret {
        Some(k) => written(v1, c, NodeView { props: v1.nodes[c].props.insert("caret"@, PropValueView::Int(k)), ..v1.nodes[c] }),
        None => v1,
    };
    match width {
        Some(w) => written(v2, c, NodeView { props: v2.nodes[c].props.insert("width"@, PropValueView::Int(w)), ..v2.nodes[c] }),
        None => v2,
    }
}

impl Textarea {
    /// The visible window `[first, last)` of display rows: from the scroll
    /// offset that keeps the caret visible, `height` rows (all rows with no
    /// height), clamped to the total.
    pub open spec fn window(&self) -> (int, int) {
        let scroll = visible_scroll_spec(self.text_lines(), self.width, self.height, self.row as int,
            self.col as int, self.scroll as int);
        let total = self.total_rows();
        let height = match self.height {
            Some(h) => if h < 1 { 1int } else { h as int },
            None => usize::MAX as int,
        };
        let end = if scroll + height > usize::MAX { usize::MAX as int } else { scroll + height };
        (if scroll < total { scroll } else { total }, if end < total { end } else { total })
    }

    /// The scene after the leaf of display row `k` is added.
    pub open spec fn row_leaf(&self, v: SceneView, parent: u64, k: int) -> SceneView {
        let (row, offset) = logical_at_spec(self.text_lines(), self.width, k);
        let caret = if self.caret_visible && k == self.caret_row() {
            Some(display_in_spec(self.wrapped_at(row), self.col as int, offset).0 as i64)
        } else {
            None
        };
        let width = match self.width {
            Some(w) => Some(w as i64),
            None => None,
        };
        leaf_step(v, parent, self.wrapped_at(row)[offset].0, self.style@, caret, width)
    }

    /// The scene after the leaves of display rows `k..last` are added in
    /// order.
    pub open spec fn materialized(&self, v: SceneView, parent: u64, k: int, last: int) -> SceneView
        decreases last - k,
    {
        if k >= last {
            v
        } else {
            self.materialized(self.row_leaf(v, parent, k), parent, k + 1, last)
        }
    }

    /// Materialize the visible display-line window as one text leaf per
    /// display row under `parent` (see [`Textarea::window`] and
    /// [`leaf_step`]): each leaf holds its display line's text; the leaf of
    /// the caret's row carries the caret's display column in a `caret` prop
    /// when the caret is visible; every leaf carries a `width` prop when the
    /// field has a width.
    pub fn materialize_content(&self, scene: &mut Scene, parent: NodeId)
        requires
            self.cursor_ok(),
            old(scene).wf(),
            old(scene)@.nodes.contains_key(parent.0),
            old(scene)@.next_id + (self.window().1 - self.window().0) < u64::MAX,
            old(scene)@.epoch + 4 * (self.window().1 - self.window().0) < u64::MAX,
        ensures
            final(scene).wf(),
            final(scene)@ == self.materialized(old(scene)@, parent.0, self.window().0, self.window().1),
    {
        let scroll = self.visible_scroll();
        let caret_row = self.caret_display_row();
        let total = self.total_display_rows();
        let height: usize = match self.height {
            Some(h) => if h < 1 { 1 } else { h },
            None => usize::MAX,
        };
        let first = if scroll < total { scroll } else { total };
        let end = scroll.saturating_add(height);
        let last = if end < total { end } else { total };
        assert(first == self.window().0 && last == self.window().1);
        let ghost target = self.materialized(scene@, parent.0, first as int, last as int);
        let mut k = first;
        while k < last
            invariant
                self.cursor_ok(),
                scene.wf(),
                first <= k <= last,
                caret_row == self.caret_row(),
                scene@.nodes.contains_key(parent.0),
                self.materialized(scene@, parent.0, k as int, last as int) == target,
                scene@.next_id + (last - k) < u64::MAX,
                scene@.epoch + 4 * (last - k) < u64::MAX,
            decreases last - k,
        {
            let ghost v0 = scene@;
            let (row, offset) = self.logical_at_display_row(k);
            let segs = self.wrapped_with_offsets(row);
            let id = match scene.add_text(parent, segs[offset].0.as_str(), self.style.clone()) {
                Some(id) => id,
                None => {
                    return;
                },
            };
            let ghost c = v0.next_id as u64;
            let ghost v1 = scene@;
            proof {
                reveal_strlit("text");
                reveal_strlit("caret");
                reveal_strlit("width");
            }
            assert(id.0 == c);
            assert(v1.nodes[c].props.dom() =~= set!["text"@]);
            assert("caret"@ != "text"@ && "width"@ != "text"@) by {
                assert("caret"@.len() == 5 && "width"@.len() == 5 && "text"@.len() == 4);
            }
            assert("width"@ != "caret"@) by {
                assert("width"@[0] != "caret"@[0]);
            }
            let ghost mut caret: Option<i64> = None;
            if self.caret_visible && k == caret_row {
                let (caret_col, _) = self.caret_display_in(row, offset);
                scene.set_prop(id, "caret", PropValue::Int(caret_col as i64));
                proof {
                    caret = Some(caret_col as i64);
                }
            }
            let ghost v2 = scene@;
            assert(!v2.nodes[c].props.contains_key("width"@));
            match self.width {
                Some(w) => {
                    scene.set_prop(id, "width", PropValue::Int(w as i64));
                },
                None => {},
            }
            assert(scene@ == leaf_step(v0, parent.0, segs@[offset as int].0@, self.style@, caret,
                match self.width { Some(w) => Some(w as i64), None => None }));
            assert(scene@ == self.row_leaf(v0, parent.0, k as int));
            k += 1;
        }
    }
}

} // verus!
