//! Measurement for layout: the display width of a text, the wrapped content
//! size of a text leaf at a given width, the children a layout pass lays
//! out, the structural delta between two child lists, the counters an
//! incremental pass keeps, and the decisions it makes: how a frame starts,
//! what reconciling one cached node takes, which cached nodes are dropped,
//! and how the frame ends.

use vstd::prelude::*;

use std::borrow::Cow;
use std::collections::HashSet;

use crate::cell::{
    cluster_width_spec, clusters, grapheme_clusters, lemma_cluster_width_at_most_two, strip_escapes,
    strip_spec,
};
use crate::text::str_eq;
use crate::scene::{
    NodeId, NodeKind, PropMap, PropValue, PropValueView, Scene, SceneNode, SceneView, id_seq,
};

verus! {

broadcast use vstd::std_specs::hash::group_hash_axioms;

// ---------------------------------------------------------------------------
// Display width
// ---------------------------------------------------------------------------

/// The sum of the widths of a list of grapheme clusters.
pub open spec fn widths_sum(gs: Seq<Seq<char>>) -> int
    decreases gs.len(),
{
    if gs.len() == 0 {
        0
    } else {
        widths_sum(gs.drop_last()) + cluster_width_spec(gs.last()) as int
    }
}

/// The display width of a text in terminal cells: the sum of the widths of
/// the grapheme clusters of its visible text (escape sequences stripped).
pub open spec fn display_width_spec(s: Seq<char>) -> int {
    widths_sum(grapheme_clusters(strip_spec(s)))
}

/// `n`, or `usize::MAX` when it is larger.
pub open spec fn sat_usize(n: int) -> int {
    if n > usize::MAX { usize::MAX as int } else { n }
}

/// The display width of `content` in terminal cells (see
/// [`display_width_spec`]): multi-width aware and cluster-indivisible — a
/// ZWJ emoji measures 2 columns, a combining sequence 1 — with escape
/// sequences invisible. Saturates at `usize::MAX`.
pub fn display_width(content: &str) -> (w: usize)
    ensures
        w as int == sat_usize(display_width_spec(content@)),
{
    let stripped = strip_escapes(content);
    let text: &str = match &stripped {
        Cow::Borrowed(b) => b,
        Cow::Owned(o) => o.as_str(),
    };
    assert(text@ == strip_spec(content@));
    let cs = clusters(text);
    let ghost gs = grapheme_clusters(text@);
    let mut total: usize = 0;
    let mut i: usize = 0;
    while i < cs.len()
        invariant
            i <= cs@.len(),
            cs@.len() == gs.len(),
            forall|j: int| 0 <= j < cs@.len() ==> (#[trigger] cs@[j]).width == cluster_width_spec(gs[j]),
            total as int == sat_usize(widths_sum(gs.take(i as int))),
            widths_sum(gs.take(i as int)) >= 0,
        decreases cs@.len() - i,
    {
        assert(gs.take(i + 1).drop_last() =~= gs.take(i as int));
        total = total.saturating_add(cs[i].width as usize);
        i += 1;
    }
    assert(gs.take(cs@.len() as int) =~= gs);
    total
}

// ---------------------------------------------------------------------------
// Wrapped size
// ---------------------------------------------------------------------------

/// The running state of a wrapped measurement: the current column, the
/// rows so far, and the widest row so far.
pub struct Measure {
    pub col: int,
    pub lines: int,
    pub max_col: int,
}

/// Place `w` columns at the cursor, wrapping to a fresh row first when they
/// would pass `width`.
pub open spec fn place(st: Measure, w: int, width: int) -> Measure {
    let (lines, col) = if st.col + w > width { (st.lines + 1, 0) } else { (st.lines, st.col) };
    let col2 = col + w;
    Measure { col: col2, lines, max_col: if col2 > st.max_col { col2 } else { st.max_col } }
}

/// Place the clusters of a token wider than a whole row one by one
/// (zero-width clusters take no room).
pub open spec fn hard_break(st: Measure, gs: Seq<Seq<char>>, width: int) -> Measure
    decreases gs.len(),
{
    if gs.len() == 0 {
        st
    } else {
        let prev = hard_break(st, gs.drop_last(), width);
        let w = cluster_width_spec(gs.last()) as int;
        if w == 0 { prev } else { place(prev, w, width) }
    }
}

/// The width the token measurement uses: its display width, as a `u32`.
pub open spec fn token_width(word: Seq<char>) -> int {
    (sat_usize(display_width_spec(word)) as u32) as int
}

/// Place one pending token: a token that fits a row goes whole (to a
/// fresh row when it does not fit the current one); a wider token is
/// hard-broken cluster by cluster.
pub open spec fn flush_word_spec(word: Seq<char>, width: int, st: Measure) -> Measure {
    if word.len() == 0 {
        st
    } else {
        let tw = token_width(word);
        if tw <= width {
            let (lines, col) = if st.col > 0 && st.col + tw > width { (st.lines + 1, 0) } else { (st.lines, st.col) };
            let col2 = col + tw;
            Measure { col: col2, lines, max_col: if col2 > st.max_col { col2 } else { st.max_col } }
        } else {
            hard_break(st, grapheme_clusters(strip_spec(word)), width)
        }
    }
}

/// The measurement after the clusters `gs`: the pending token, and the
/// state. A line break flushes the token and starts a row; a space flushes
/// the token and takes a column unless the row is full; anything else
/// extends the token.
pub open spec fn measure_run(gs: Seq<Seq<char>>, width: int) -> (Seq<char>, Measure)
    decreases gs.len(),
{
    if gs.len() == 0 {
        (Seq::empty(), Measure { col: 0, lines: 1, max_col: 0 })
    } else {
        let (word, st) = measure_run(gs.drop_last(), width);
        let g = gs.last();
        if g == "\n"@ || g == "\r\n"@ {
            let st2 = flush_word_spec(word, width, st);
            (Seq::empty(), Measure { col: 0, lines: st2.lines + 1, ..st2 })
        } else if g == " "@ {
            let st2 = flush_word_spec(word, width, st);
            if st2.col < width {
                let col = st2.col + 1;
                (Seq::empty(), Measure { col, max_col: if col > st2.max_col { col } else { st2.max_col }, ..st2 })
            } else {
                (Seq::empty(), st2)
            }
        } else {
            (word + g, st)
        }
    }
}

/// The wrapped content size of `content` at `width` (at least 1): the
/// widest row and the row count; `(0, 0)` for an empty content.
pub open spec fn measure_spec(content: Seq<char>, width: u32) -> (int, int) {
    if content.len() == 0 {
        (0, 0)
    } else {
        let w = if width < 1 { 1int } else { width as int };
        let (word, st) = measure_run(grapheme_clusters(strip_spec(content)), w);
        let fin = flush_word_spec(word, w, st);
        (fin.max_col, fin.lines)
    }
}

/// The measurement invariants: columns stay within `max(width, 2)`, the
/// widest row covers the current column, and the row count is positive.
pub open spec fn measure_ok(st: Measure, width: int) -> bool {
    &&& 0 <= st.col <= st.max_col
    &&& st.max_col <= if width > 2 { width } else { 2 }
    &&& st.lines >= 1
}

proof fn lemma_hard_break_ok(st: Measure, gs: Seq<Seq<char>>, width: int)
    requires
        measure_ok(st, width),
        width >= 1,
    ensures
        measure_ok(hard_break(st, gs, width), width),
    decreases gs.len(),
{
    if gs.len() > 0 {
        lemma_hard_break_ok(st, gs.drop_last(), width);
        lemma_cluster_width_at_most_two(gs.last());
    }
}

proof fn lemma_flush_ok(word: Seq<char>, width: int, st: Measure)
    requires
        measure_ok(st, width),
        width >= 1,
    ensures
        measure_ok(flush_word_spec(word, width, st), width),
{
    if word.len() > 0 && token_width(word) > width {
        lemma_hard_break_ok(st, grapheme_clusters(strip_spec(word)), width);
    }
}

/// The clusters `ts` joined into one text.
pub open spec fn joined(ts: Seq<Seq<char>>) -> Seq<char>
    decreases ts.len(),
{
    if ts.len() == 0 { Seq::empty() } else { joined(ts.drop_last()) + ts.last() }
}

/// Whether a cluster ends a token: a space or a line break.
pub open spec fn is_break(g: Seq<char>) -> bool {
    g == " "@ || g == "\n"@ || g == "\r\n"@
}

proof fn lemma_run_extends_token(gs: Seq<Seq<char>>, ts: Seq<Seq<char>>, width: int)
    requires
        forall|i: int| 0 <= i < ts.len() ==> !is_break(#[trigger] ts[i]),
    ensures
        measure_run(gs + ts, width) == (measure_run(gs, width).0 + joined(ts), measure_run(gs, width).1),
    decreases ts.len(),
{
    if ts.len() == 0 {
        assert(gs + ts =~= gs);
        assert(measure_run(gs, width).0 + joined(ts) =~= measure_run(gs, width).0);
    } else {
        let init = ts.drop_last();
        assert forall|i: int| 0 <= i < init.len() implies !is_break(#[trigger] init[i]) by {
            assert(init[i] == ts[i]);
        }
        lemma_run_extends_token(gs, init, width);
        assert((gs + ts).drop_last() =~= gs + init);
        assert((gs + ts).last() == ts.last());
        assert(!is_break(ts[ts.len() - 1]));
        assert(measure_run(gs, width).0 + joined(init) + ts.last() =~= measure_run(gs, width).0 + joined(ts));
    }
}

/// A token that fits a row is never split: after content that ends at a
/// token boundary (nothing, a space or a line break) with measured state
/// `st`, a following whitespace-free token of display width `tw <= width`
/// lands whole, on the current row when `st.col + tw <= width`, and
/// otherwise whole at the start of exactly one fresh row. The widest row
/// grows to cover it.
pub proof fn fitting_token_lands_whole(gs: Seq<Seq<char>>, ts: Seq<Seq<char>>, width: int)
    requires
        width >= 1,
        gs.len() == 0 || is_break(gs.last()),
        joined(ts).len() > 0,
        forall|i: int| 0 <= i < ts.len() ==> !is_break(#[trigger] ts[i]),
        token_width(joined(ts)) <= width,
    ensures
        ({
            let st = measure_run(gs, width).1;
            let tw = token_width(joined(ts));
            let (word, mid) = measure_run(gs + ts, width);
            let fin = flush_word_spec(word, width, mid);
            &&& word == joined(ts)
            &&& mid == st
            &&& st.col + tw <= width ==> fin.lines == st.lines && fin.col == st.col + tw
            &&& st.col + tw > width ==> fin.lines == st.lines + 1 && fin.col == tw
            &&& fin.max_col == (if fin.col > st.max_col { fin.col } else { st.max_col })
        }),
{
    lemma_run_extends_token(gs, ts, width);
    if gs.len() > 0 {
        let (w0, s0) = measure_run(gs.drop_last(), width);
        assert(gs.drop_last().push(gs.last()) =~= gs);
    }
    assert(measure_run(gs, width).0 == Seq::<char>::empty());
    assert(measure_run(gs, width).0 + joined(ts) =~= joined(ts));
    let st = measure_run(gs, width).1;
    assert(st.col >= 0) by {
        lemma_run_col_nonneg(gs, width);
    }
}

proof fn lemma_run_col_nonneg(gs: Seq<Seq<char>>, width: int)
    requires
        width >= 1,
    ensures
        measure_ok(measure_run(gs, width).1, width),
    decreases gs.len(),
{
    if gs.len() > 0 {
        lemma_run_col_nonneg(gs.drop_last(), width);
        let (word, st) = measure_run(gs.drop_last(), width);
        lemma_flush_ok(word, width, st);
    }
}

/// The exec form of the measurement state. The row count saturates at
/// `u64::MAX`; the columns stay within the row width.
struct Counter {
    col: u64,
    lines: u64,
    max_col: u64,
}

/// `n`, or `u64::MAX` when it is larger.
spec fn sat_u64(n: int) -> int {
    if n > u64::MAX { u64::MAX as int } else { n }
}

/// The counter holds the measurement `m` (the row count saturated).
spec fn holds(c: Counter, m: Measure) -> bool {
    &&& c.col as int == m.col
    &&& c.max_col as int == m.max_col
    &&& c.lines as int == sat_u64(m.lines)
}

/// Place one pending token onto the wrapped measurement (see
/// [`flush_word_spec`]).
fn flush_word(word: &str, width: u32, st: &mut Counter, Ghost(m): Ghost<Measure>)
    requires
        width >= 1,
        measure_ok(m, width as int),
        holds(*old(st), m),
    ensures
        holds(*final(st), flush_word_spec(word@, width as int, m)),
{
    proof {
        lemma_flush_ok(word@, width as int, m);
    }
    proof {
        reveal_strlit("");
    }
    if str_eq(word, "") {
        return;
    }
    let tw = display_width(word) as u32 as u64;
    let wd = width as u64;
    assert(word@.len() != 0) by {
        if word@.len() == 0 {
            assert(word@ =~= ""@);
        }
    }
    if tw <= wd {
        if st.col > 0 && st.col + tw > wd {
            st.lines = st.lines.saturating_add(1);
            st.col = 0;
        }
        st.col = st.col + tw;
        if st.col > st.max_col {
            st.max_col = st.col;
        }
        return;
    }
    let stripped = strip_escapes(word);
    let text: &str = match &stripped {
        Cow::Borrowed(b) => b,
        Cow::Owned(o) => o.as_str(),
    };
    assert(text@ == strip_spec(word@));
    let cs = clusters(text);
    let ghost gs = grapheme_clusters(text@);
    let mut i: usize = 0;
    while i < cs.len()
        invariant
            i <= cs@.len(),
            cs@.len() == gs.len(),
            wd == width,
            width >= 1,
            forall|j: int| 0 <= j < cs@.len() ==> (#[trigger] cs@[j]).width == cluster_width_spec(gs[j]),
            measure_ok(m, width as int),
            holds(*st, hard_break(m, gs.take(i as int), width as int)),
        decreases cs@.len() - i,
    {
        proof {
            assert(gs.take(i + 1).drop_last() =~= gs.take(i as int));
            lemma_hard_break_ok(m, gs.take(i as int), width as int);
        }
        let w = cs[i].width as u64;
        if w != 0 {
            if st.col + w > wd {
                st.lines = st.lines.saturating_add(1);
                st.col = 0;
            }
            st.col = st.col + w;
            if st.col > st.max_col {
                st.max_col = st.col;
            }
        }
        i += 1;
    }
    assert(gs.take(cs@.len() as int) =~= gs);
}

/// `n` as a `u32`, or `u32::MAX` when it is larger.
pub open spec fn sat_u32(n: int) -> int {
    if n > u32::MAX { u32::MAX as int } else { n }
}

/// The wrapped content size of `content` laid out at `width` cells (see
/// [`measure_spec`]): the display width of the widest wrapped row and the
/// wrapped row count. A token that does not fit the current row wraps whole
/// to the next row when it fits a fresh one; a token wider than the whole
/// row is hard-broken across rows; `\n` / `\r\n` force a break; a space at a
/// full row's end is dropped; a cluster never splits. An empty content
/// reports `(0, 0)`. The row count saturates at `u32::MAX`.
pub fn measure_wrapped(content: &str, width: u32) -> (r: (u32, u32))
    ensures
        r.0 as int == measure_spec(content@, width).0,
        r.1 as int == sat_u32(measure_spec(content@, width).1),
        content@.len() > 0 ==> r.1 >= 1,
        r.0 <= if width > 2 { width } else { 2 },
{
    proof {
        reveal_strlit("");
    }
    if str_eq(content, "") {
        return (0, 0);
    }
    assert(content@.len() != 0) by {
        if content@.len() == 0 {
            assert(content@ =~= ""@);
        }
    }
    let width = if width < 1 { 1 } else { width };
    let wd = width as u64;
    let stripped = strip_escapes(content);
    let text: &str = match &stripped {
        Cow::Borrowed(b) => b,
        Cow::Owned(o) => o.as_str(),
    };
    assert(text@ == strip_spec(content@));
    let cs = clusters(text);
    let ghost gs = grapheme_clusters(text@);
    let mut st = Counter { col: 0, lines: 1, max_col: 0 };
    let mut word = String::new();
    let mut i: usize = 0;
    while i < cs.len()
        invariant
            i <= cs@.len(),
            cs@.len() == gs.len(),
            wd == width,
            width >= 1,
            forall|j: int| 0 <= j < cs@.len() ==> (#[trigger] cs@[j]).text@ == gs[j],
            word@ == measure_run(gs.take(i as int), width as int).0,
            holds(st, measure_run(gs.take(i as int), width as int).1),
            measure_ok(measure_run(gs.take(i as int), width as int).1, width as int),
        decreases cs@.len() - i,
    {
        assert(gs.take(i + 1).drop_last() =~= gs.take(i as int));
        let ghost m = measure_run(gs.take(i as int), width as int).1;
        let g = cs[i].text;
        proof {
            reveal_strlit("\n");
            reveal_strlit("\r\n");
            reveal_strlit(" ");
        }
        if str_eq(g, "\n") || str_eq(g, "\r\n") {
            flush_word(word.as_str(), width, &mut st, Ghost(m));
            proof {
                lemma_flush_ok(word@, width as int, m);
            }
            word = String::new();
            st.lines = st.lines.saturating_add(1);
            st.col = 0;
        } else if str_eq(g, " ") {
            flush_word(word.as_str(), width, &mut st, Ghost(m));
            proof {
                lemma_flush_ok(word@, width as int, m);
            }
            word = String::new();
            if st.col < wd {
                st.col = st.col + 1;
                if st.col > st.max_col {
                    st.max_col = st.col;
                }
            }
        } else {
            word.append(g);
        }
        i += 1;
    }
    assert(gs.take(cs@.len() as int) =~= gs);
    let ghost m = measure_run(gs, width as int).1;
    flush_word(word.as_str(), width, &mut st, Ghost(m));
    proof {
        lemma_flush_ok(word@, width as int, m);
    }
    let lines = if st.lines > u32::MAX as u64 { u32::MAX } else { st.lines as u32 };
    (st.max_col as u32, lines)
}

// ---------------------------------------------------------------------------
// Visible children
// ---------------------------------------------------------------------------

/// The string stored under `key`, when the property is a string.
pub open spec fn prop_str_spec(p: Map<Seq<char>, PropValueView>, key: Seq<char>) -> Option<Seq<char>> {
    if p.contains_key(key) {
        match p[key] {
            PropValueView::Str(s) => Some(s),
            _ => None,
        }
    } else {
        None
    }
}

/// A node styled `display: none` (it and its subtree take no part in
/// layout).
pub open spec fn hidden(p: Map<Seq<char>, PropValueView>) -> bool {
    prop_str_spec(p, "display"@) == Some("none"@)
}

/// A node styled `position: absolute`.
pub open spec fn absolute(p: Map<Seq<char>, PropValueView>) -> bool {
    prop_str_spec(p, "position"@) == Some("absolute"@)
}

/// Text and streaming-text nodes are layout leaves.
pub open spec fn is_leaf_kind(k: NodeKind) -> bool {
    k == NodeKind::Text || k == NodeKind::StreamingText
}

/// Whether the child `c` takes part in its parent's layout: it exists, is
/// not `display: none`, and — under a leaf parent — is absolutely
/// positioned.
pub open spec fn lays_out(v: SceneView, leaf: bool, c: u64) -> bool {
    &&& v.nodes.contains_key(c)
    &&& !hidden(v.nodes[c].props)
    &&& (leaf ==> absolute(v.nodes[c].props))
}

/// The children among `cs` that take part in layout, in order.
pub open spec fn visible_ids(v: SceneView, leaf: bool, cs: Seq<u64>) -> Seq<u64>
    decreases cs.len(),
{
    if cs.len() == 0 {
        Seq::empty()
    } else {
        let rest = visible_ids(v, leaf, cs.drop_last());
        if lays_out(v, leaf, cs.last()) { rest.push(cs.last()) } else { rest }
    }
}

/// Whether the string property `key` of `props` equals `expected`.
fn prop_str_is(props: &PropMap, key: &str, expected: &str) -> (r: bool)
    ensures
        r == (prop_str_spec(props@, key@) == Some(expected@)),
{
    match props.get(key) {
        Some(PropValue::Str(s)) => str_eq(s.as_str(), expected),
        _ => false,
    }
}

/// The children of `node` that a layout pass lays out (see [`lays_out`]):
/// every child that is not `display: none`, and under a text or
/// streaming-text leaf only the absolutely positioned ones. Children that
/// are missing from the scene are skipped.
pub fn visible_children(scene: &Scene, node: &SceneNode) -> (r: Vec<NodeId>)
    requires
        scene.wf(),
    ensures
        id_seq(r@) == visible_ids(scene@, is_leaf_kind(node.kind), id_seq(node.children@)),
{
    let leaf = match node.kind {
        NodeKind::Text | NodeKind::StreamingText => true,
        _ => false,
    };
    let ghost cs = id_seq(node.children@);
    let mut out: Vec<NodeId> = Vec::new();
    let mut i: usize = 0;
    proof {
        reveal_strlit("display");
        reveal_strlit("none");
        reveal_strlit("position");
        reveal_strlit("absolute");
    }
    while i < node.children.len()
        invariant
            scene.wf(),
            i <= node.children@.len(),
            cs == id_seq(node.children@),
            leaf == is_leaf_kind(node.kind),
            id_seq(out@) == visible_ids(scene@, leaf, cs.take(i as int)),
        decreases node.children@.len() - i,
    {
        assert(cs.take(i + 1).drop_last() =~= cs.take(i as int));
        let child = node.children[i];
        match scene.node(child) {
            Some(c) => {
                let keep = !prop_str_is(&c.props, "display", "none")
                    && (!leaf || prop_str_is(&c.props, "position", "absolute"));
                if keep {
                    out.push(child);
                    assert(id_seq(out@) =~= id_seq(out@.drop_last()).push(child.0));
                }
            },
            None => {},
        }
        i += 1;
    }
    assert(cs.take(node.children@.len() as int) =~= cs);
    out
}

// ---------------------------------------------------------------------------
// Structural delta
// ---------------------------------------------------------------------------

/// How many entries of `a` do not occur in `b`.
pub open spec fn count_missing(a: Seq<u64>, b: Seq<u64>) -> nat
    decreases a.len(),
{
    if a.len() == 0 {
        0
    } else {
        count_missing(a.drop_last(), b) + if b.contains(a.last()) { 0nat } else { 1nat }
    }
}

proof fn lemma_count_missing_le(a: Seq<u64>, b: Seq<u64>)
    ensures
        count_missing(a, b) <= a.len(),
    decreases a.len(),
{
    if a.len() > 0 {
        lemma_count_missing_le(a.drop_last(), b);
    }
}

/// The set of ids in `v`.
fn id_set(v: &[NodeId]) -> (r: HashSet<u64>)
    ensures
        r@ == id_seq(v@).to_set(),
{
    let ghost s = id_seq(v@);
    let mut set: HashSet<u64> = HashSet::new();
    let mut i: usize = 0;
    while i < v.len()
        invariant
            i <= v@.len(),
            s == id_seq(v@),
            set@ == s.take(i as int).to_set(),
        decreases v@.len() - i,
    {
        set.insert(v[i].0);
        proof {
            assert(s.take(i + 1) =~= s.take(i as int).push(s[i as int]));
            s.take(i as int).lemma_push_to_set_commute(s[i as int]);
        }
        i += 1;
    }
    assert(s.take(v@.len() as int) =~= s);
    set
}

/// How many entries of `a` are not in `set`.
fn count_absent(a: &[NodeId], set: &HashSet<u64>, Ghost(b): Ghost<Seq<u64>>) -> (n: usize)
    requires
        set@ == b.to_set(),
    ensures
        n == count_missing(id_seq(a@), b),
{
    let ghost s = id_seq(a@);
    let mut n: usize = 0;
    let mut i: usize = 0;
    while i < a.len()
        invariant
            i <= a@.len(),
            s == id_seq(a@),
            set@ == b.to_set(),
            n == count_missing(s.take(i as int), b),
            n <= i,
        decreases a@.len() - i,
    {
        assert(s.take(i + 1).drop_last() =~= s.take(i as int));
        proof {
            lemma_count_missing_le(s.take(i as int), b);
        }
        if !set.contains(&a[i].0) {
            n += 1;
        }
        i += 1;
    }
    assert(s.take(a@.len() as int) =~= s);
    n
}

/// The number of ids that appear in exactly one of the two child lists —
/// the structural delta between two frames: the entries of `a` missing
/// from `b` plus the entries of `b` missing from `a`.
pub fn symmetric_diff_len(a: &[NodeId], b: &[NodeId]) -> (n: usize)
    requires
        a@.len() + b@.len() <= usize::MAX,
    ensures
        n == count_missing(id_seq(a@), id_seq(b@)) + count_missing(id_seq(b@), id_seq(a@)),
{
    let set_b = id_set(b);
    let n1 = count_absent(a, &set_b, Ghost(id_seq(b@)));
    let set_a = id_set(a);
    let n2 = count_absent(b, &set_a, Ghost(id_seq(a@)));
    proof {
        lemma_count_missing_le(id_seq(a@), id_seq(b@));
        lemma_count_missing_le(id_seq(b@), id_seq(a@));
    }
    n1 + n2
}

// ---------------------------------------------------------------------------
// Reconciliation counters
// ---------------------------------------------------------------------------

/// Per-frame reconciliation counters of an incremental layout pass.
#[derive(Debug, Clone, Copy)]
pub struct ReconcileCounters {
    /// Nodes whose style, content or children were reconciled in place.
    pub changed: usize,
    /// Nodes (re)built from scratch (new subtrees).
    pub created: usize,
    /// Nodes removed from the cached tree.
    pub removed: usize,
}

impl Default for ReconcileCounters {
    fn default() -> (c: Self)
        ensures
            c.changed == 0 && c.created == 0 && c.removed == 0,
    {
        ReconcileCounters { changed: 0, created: 0, removed: 0 }
    }
}

impl ReconcileCounters {
    /// Every node the pass touched.
    pub fn total(self) -> (n: usize)
        requires
            self.changed + self.created + self.removed <= usize::MAX,
        ensures
            n == self.changed + self.created + self.removed,
    {
        self.changed + self.created + self.removed
    }

    /// Whether the frame is cheaper and safer as a full rebuild: it changed
    /// or created more than half of the `cached` nodes (removals are cheap
    /// and do not count).
    pub fn wants_full_rebuild(self, cached: usize) -> (b: bool)
        requires
            self.changed + self.created <= usize::MAX,
        ensures
            b == (self.changed + self.created > cached / 2),
    {
        self.changed + self.created > cached / 2
    }
}


/// How a frame's layout begins.
#[derive(Debug, Clone, Copy, PartialEq, Eq, Structural)]
pub enum FrameStart {
    /// Lay the whole scene out from scratch.
    FullRebuild,
    /// Reconcile the cached tree against the scene.
    Reconcile,
}

/// How a frame begins: a full rebuild on a cold cache (no cached nodes) or
/// on a fresh scene instance (its mutation epoch fell below the last one
/// this engine saw, a fresh scene's epoch starting at 0); otherwise the
/// cached tree is reconciled.
pub fn frame_start(cached_nodes: usize, scene_epoch: u64, last_epoch: u64) -> (s: FrameStart)
    ensures
        s == (if cached_nodes == 0 || scene_epoch < last_epoch { FrameStart::FullRebuild } else { FrameStart::Reconcile }),
{
    if cached_nodes == 0 || scene_epoch < last_epoch {
        FrameStart::FullRebuild
    } else {
        FrameStart::Reconcile
    }
}

/// The cached ids that are not among the scene's ids, in cache order.
pub open spec fn orphans_spec(cached: Seq<NodeId>, scene_ids: Seq<NodeId>) -> Seq<NodeId>
    decreases cached.len(),
{
    if cached.len() == 0 {
        Seq::empty()
    } else {
        let rest = orphans_spec(cached.drop_last(), scene_ids);
        if scene_ids.contains(cached.last()) { rest } else { rest.push(cached.last()) }
    }
}

/// The cached nodes whose id is no longer in the scene, in cache order: the
/// ones an incremental frame drops (see [`orphans_spec`]).
pub fn orphans(cached: &Vec<NodeId>, scene_ids: &Vec<NodeId>) -> (v: Vec<NodeId>)
    ensures
        v@ == orphans_spec(cached@, scene_ids@),
{
    let mut v: Vec<NodeId> = Vec::new();
    let mut i: usize = 0;
    while i < cached.len()
        invariant
            i <= cached@.len(),
            v@ == orphans_spec(cached@.take(i as int), scene_ids@),
        decreases cached@.len() - i,
    {
        let id = cached[i];
        let mut found = false;
        let mut j: usize = 0;
        while j < scene_ids.len()
            invariant
                j <= scene_ids@.len(),
                found == exists|k: int| 0 <= k < j && scene_ids@[k] == id,
            decreases scene_ids@.len() - j,
        {
            if scene_ids[j] == id {
                found = true;
            }
            j += 1;
        }
        assert(cached@.take(i + 1).drop_last() =~= cached@.take(i as int));
        assert(found == scene_ids@.contains(id));
        if !found {
            v.push(id);
        }
        i += 1;
    }
    assert(cached@.take(cached@.len() as int) =~= cached@);
    v
}

/// How an incremental frame ends, once the cached tree is reconciled.
#[derive(Debug, Clone, Copy, PartialEq, Eq, Structural)]
pub enum FrameEnd {
    /// Fall back to a full rebuild.
    FullRebuild,
    /// The root is hidden (`display: none`): no geometry this frame.
    Hidden,
    /// Lay the reconciled tree out and read the geometry.
    Layout,
}

/// How an incremental frame ends: a full rebuild when the reconciliation
/// met a change it cannot make in place, or when the frame changed or
/// created more than half of the `cached_nodes` (see
/// [`ReconcileCounters::wants_full_rebuild`]); otherwise nothing when the
/// root has no cached node, and a layout of the reconciled tree when it
/// has.
pub fn frame_end(force_rebuild: bool, counters: ReconcileCounters, cached_nodes: usize, root_cached: bool) -> (e: FrameEnd)
    requires
        counters.changed + counters.created <= usize::MAX,
    ensures
        e == (if force_rebuild || counters.changed + counters.created > cached_nodes / 2 {
            FrameEnd::FullRebuild
        } else if !root_cached {
            FrameEnd::Hidden
        } else {
            FrameEnd::Layout
        }),
{
    if force_rebuild || counters.wants_full_rebuild(cached_nodes) {
        FrameEnd::FullRebuild
    } else if !root_cached {
        FrameEnd::Hidden
    } else {
        FrameEnd::Layout
    }
}

/// A node's layout-relevant facts as the incremental pass compares them
/// from frame to frame (its style is compared by the engine, which holds
/// it in its own floating-point form).
#[derive(Debug, Clone, PartialEq)]
pub struct NodeFacts {
    /// The node kind.
    pub kind: NodeKind,
    /// The `text` prop of a `Text` leaf.
    pub content: Option<String>,
    /// The `wrap` prop of a `Text` / `StreamingText` leaf.
    pub wrap: Option<bool>,
    /// A signature of a streaming leaf's content.
    pub stream_sig: Option<(usize, u64)>,
    /// The visible children.
    pub children: Vec<NodeId>,
}

/// What reconciling one cached node takes.
#[derive(Debug, Clone, PartialEq)]
pub struct ReconcilePlan {
    /// Set the node's new style.
    pub set_style: bool,
    /// Store the new text content and re-measure.
    pub refresh_content: bool,
    /// Store the new wrap mode and re-measure.
    pub refresh_wrap: bool,
    /// Store the new stream content and re-measure.
    pub refresh_stream: bool,
    /// Apply the new child list.
    pub children_changed: bool,
    /// The structural delta between the child lists (see
    /// [`symmetric_diff_len`]), 0 when they are equal.
    pub structural: usize,
    /// The old children that left the child list, in their old order: their
    /// subtrees leave the cached tree.
    pub dropped: Vec<NodeId>,
}

/// The text of an optional string.
pub open spec fn opt_text(o: Option<String>) -> Option<Seq<char>> {
    match o {
        Some(s) => Some(s@),
        None => None,
    }
}

fn opt_str_eq(a: &Option<String>, b: &Option<String>) -> (r: bool)
    ensures
        r == (opt_text(*a) == opt_text(*b)),
{
    match (a, b) {
        (Some(x), Some(y)) => str_eq(x.as_str(), y.as_str()),
        (None, None) => true,
        _ => false,
    }
}

fn ids_eq(a: &Vec<NodeId>, b: &Vec<NodeId>) -> (r: bool)
    ensures
        r == (a@ == b@),
{
    if a.len() != b.len() {
        return false;
    }
    let mut i: usize = 0;
    while i < a.len()
        invariant
            i <= a@.len(),
            a@.len() == b@.len(),
            forall|k: int| 0 <= k < i ==> a@[k] == b@[k],
        decreases a@.len() - i,
    {
        if a[i] != b[i] {
            return false;
        }
        i += 1;
    }
    assert(a@ =~= b@);
    true
}

/// Plan the reconciliation of one cached node from its facts at the last
/// frame and now: `None` when its kind flipped (leaf and container
/// semantics differ, so the frame falls back to a full rebuild); otherwise
/// which parts to refresh — each exactly when it changed — the structural
/// delta of its child list, and the children that left it.
pub fn reconcile_plan(prev: &NodeFacts, next: &NodeFacts, style_changed: bool) -> (p: Option<ReconcilePlan>)
    requires
        prev.children@ != next.children@ ==> prev.children@.len() + next.children@.len() <= usize::MAX,
    ensures
        p is None <==> prev.kind != next.kind,
        p matches Some(q) ==> {
            &&& q.set_style == style_changed
            &&& q.refresh_content == (opt_text(prev.content) != opt_text(next.content))
            &&& q.refresh_wrap == (prev.wrap != next.wrap)
            &&& q.refresh_stream == (prev.stream_sig != next.stream_sig)
            &&& q.children_changed == (prev.children@ != next.children@)
            &&& q.structural == (if prev.children@ != next.children@ {
                count_missing(id_seq(prev.children@), id_seq(next.children@))
                    + count_missing(id_seq(next.children@), id_seq(prev.children@))
            } else {
                0
            })
            &&& q.dropped@ == (if prev.children@ != next.children@ {
                orphans_spec(prev.children@, next.children@)
            } else {
                Seq::empty()
            })
        },
{
    if prev.kind != next.kind {
        return None;
    }
    let children_changed = !ids_eq(&prev.children, &next.children);
    let (structural, dropped) = if children_changed {
        (symmetric_diff_len(prev.children.as_slice(), next.children.as_slice()), orphans(&prev.children, &next.children))
    } else {
        (0, Vec::new())
    };
    let same_sig = match (prev.stream_sig, next.stream_sig) {
        (Some(x), Some(y)) => x.0 == y.0 && x.1 == y.1,
        (None, None) => true,
        _ => false,
    };
    Some(ReconcilePlan {
        set_style: style_changed,
        refresh_content: !opt_str_eq(&prev.content, &next.content),
        refresh_wrap: prev.wrap != next.wrap,
        refresh_stream: !same_sig,
        children_changed,
        structural,
        dropped,
    })
}

} // verus!
