//! The retained scene tree: nodes with a kind, a style, ordered children,
//! a property map and (for streaming text) an appended span stream, plus the
//! change-detection state a renderer reads — a mutation epoch and the set of
//! ids touched since the last drain — and a parallel accessibility-semantics
//! store.

use vstd::prelude::*;

use std::collections::HashSet;

use crate::rect::Rect;
use crate::semantics::{SemanticsNode, SemanticsView, semantics_view};
use crate::style::{Style, StyleView};
use crate::text::str_eq;

verus! {

broadcast use vstd::std_specs::hash::group_hash_axioms;

// ---------------------------------------------------------------------------
// Ids, kinds, spans
// ---------------------------------------------------------------------------

/// Stable identity of a scene node, unique within a [`Scene`].
#[derive(Debug, Clone, Copy, PartialEq, Eq, Structural, Hash, PartialOrd, Ord)]
pub struct NodeId(pub u64);

/// What a node is; drives layout and paint behaviour.
#[derive(Debug, Clone, Copy, PartialEq, Eq, Structural, Hash)]
pub enum NodeKind {
    /// The implicit root node of a scene.
    Root,
    /// A box: a styled region that lays out its children (flex container).
    Box,
    /// A leaf that renders its `text` prop content.
    Text,
    /// A leaf that renders incrementally appended styled spans (its `stream`).
    StreamingText,
}

/// A styled chunk of text: one entry of a streaming node's stream, and the
/// unit a highlighter produces.
#[derive(Debug)]
pub struct Span {
    /// The chunk's text content.
    pub text: String,
    /// The style applied to this chunk.
    pub style: Style,
}

/// The value of a span: its characters and its style.
pub type SpanView = (Seq<char>, StyleView);

/// The values of a sequence of spans.
pub open spec fn span_views(v: Seq<Span>) -> Seq<SpanView> {
    v.map_values(|sp: Span| (sp.text@, sp.style@))
}

impl Clone for Span {
    fn clone(&self) -> (r: Self)
        ensures
            r.text@ == self.text@,
            r.style@ == self.style@,
    {
        Span { text: self.text.clone(), style: self.style.clone() }
    }
}

impl PartialEq for Span {
    fn eq(&self, other: &Self) -> (r: bool) {
        self.text.eq(&other.text) && self.style == other.style
    }
}

impl vstd::std_specs::cmp::PartialEqSpecImpl for Span {
    open spec fn obeys_eq_spec() -> bool {
        true
    }

    open spec fn eq_spec(&self, other: &Self) -> bool {
        self.text@ == other.text@ && self.style@ == other.style@
    }
}

// ---------------------------------------------------------------------------
// Property values
// ---------------------------------------------------------------------------

/// A 64-bit IEEE-754 floating-point value, held by its bit pattern.
#[derive(Debug, Clone, Copy)]
pub struct FloatBits(pub u64);

/// Whether a bit pattern is a NaN: all exponent bits set and a nonzero
/// fraction.
pub open spec fn is_nan_bits(b: u64) -> bool {
    (b / 0x10_0000_0000_0000) % 0x800 == 0x7ff && b % 0x10_0000_0000_0000 != 0
}

/// Whether a bit pattern is a zero of either sign.
pub open spec fn is_zero_bits(b: u64) -> bool {
    b % 0x8000_0000_0000_0000 == 0
}

/// IEEE-754 equality of two bit patterns: no NaN equals anything, the two
/// zeros are equal, and otherwise equal values have equal bits.
pub open spec fn float_bits_eq(a: u64, b: u64) -> bool {
    !is_nan_bits(a) && !is_nan_bits(b) && (a == b || (is_zero_bits(a) && is_zero_bits(b)))
}

/// IEEE-754 equality of two floats given by their bits.
pub fn float_eq(a: FloatBits, b: FloatBits) -> (r: bool)
    ensures
        r == float_bits_eq(a.0, b.0),
{
    let nan_a = (a.0 / 0x10_0000_0000_0000) % 0x800 == 0x7ff && a.0 % 0x10_0000_0000_0000 != 0;
    let nan_b = (b.0 / 0x10_0000_0000_0000) % 0x800 == 0x7ff && b.0 % 0x10_0000_0000_0000 != 0;
    !nan_a && !nan_b && (a.0 == b.0 || (a.0 % 0x8000_0000_0000_0000 == 0 && b.0 % 0x8000_0000_0000_0000 == 0))
}

/// A property value stored on a scene node.
#[derive(Debug)]
pub enum PropValue {
    /// String property, e.g. `text` content or a flex direction keyword.
    Str(String),
    /// Integer property, e.g. a pixel/gap size.
    Int(i64),
    /// Floating-point property.
    Float(FloatBits),
    /// Boolean property, e.g. `display: none`.
    Bool(bool),
}

/// The value of a [`PropValue`].
pub enum PropValueView {
    Str(Seq<char>),
    Int(i64),
    Float(u64),
    Bool(bool),
}

impl View for PropValue {
    type V = PropValueView;

    open spec fn view(&self) -> PropValueView {
        match self {
            PropValue::Str(s) => PropValueView::Str(s@),
            PropValue::Int(i) => PropValueView::Int(*i),
            PropValue::Float(f) => PropValueView::Float(f.0),
            PropValue::Bool(b) => PropValueView::Bool(*b),
        }
    }
}

/// Float props compare as IEEE-754 numbers: a NaN (exponent bits all set,
/// fraction nonzero) equals nothing, not even itself; every other value
/// equals itself; the two zeros are equal; and any two other bit patterns
/// are different numbers, so they are unequal. The relation is symmetric.
pub proof fn float_equality_is_numeric(a: u64, b: u64)
    ensures
        (a / 0x10_0000_0000_0000) % 0x800 == 0x7ff && a % 0x10_0000_0000_0000 != 0 ==> !float_bits_eq(a, b)
            && !float_bits_eq(b, a),
        !((a / 0x10_0000_0000_0000) % 0x800 == 0x7ff && a % 0x10_0000_0000_0000 != 0) ==> float_bits_eq(a, a),
        a != b && !(a % 0x8000_0000_0000_0000 == 0 && b % 0x8000_0000_0000_0000 == 0) ==> !float_bits_eq(a, b),
        float_bits_eq(0, 0x8000_0000_0000_0000) && float_bits_eq(0x8000_0000_0000_0000, 0),
        float_bits_eq(a, b) == float_bits_eq(b, a),
{
}

/// Prop equality is what `set_prop` tests before it writes: two float props
/// are equal exactly when their numbers are (see
/// [`float_equality_is_numeric`]), so a write of a different number is
/// never taken for an equal-value write.
pub proof fn different_floats_are_different_props(a: u64, b: u64)
    requires
        a != b,
        !(a % 0x8000_0000_0000_0000 == 0 && b % 0x8000_0000_0000_0000 == 0),
    ensures
        !prop_eq(PropValueView::Float(a), PropValueView::Float(b)),
{
}

/// Property-value equality: same variant and equal payload, floats compared
/// as IEEE-754 numbers.
pub open spec fn prop_eq(a: PropValueView, b: PropValueView) -> bool {
    match (a, b) {
        (PropValueView::Str(x), PropValueView::Str(y)) => x == y,
        (PropValueView::Int(x), PropValueView::Int(y)) => x == y,
        (PropValueView::Float(x), PropValueView::Float(y)) => float_bits_eq(x, y),
        (PropValueView::Bool(x), PropValueView::Bool(y)) => x == y,
        _ => false,
    }
}

impl Clone for PropValue {
    fn clone(&self) -> (r: Self)
        ensures
            r@ == self@,
    {
        match self {
            PropValue::Str(s) => PropValue::Str(s.clone()),
            PropValue::Int(i) => PropValue::Int(*i),
            PropValue::Float(f) => PropValue::Float(*f),
            PropValue::Bool(b) => PropValue::Bool(*b),
        }
    }
}

impl PartialEq for PropValue {
    fn eq(&self, other: &Self) -> (r: bool) {
        match (self, other) {
            (PropValue::Str(x), PropValue::Str(y)) => x.eq(y),
            (PropValue::Int(x), PropValue::Int(y)) => *x == *y,
            (PropValue::Float(x), PropValue::Float(y)) => float_eq(*x, *y),
            (PropValue::Bool(x), PropValue::Bool(y)) => *x == *y,
            _ => false,
        }
    }
}

impl vstd::std_specs::cmp::PartialEqSpecImpl for PropValue {
    open spec fn obeys_eq_spec() -> bool {
        true
    }

    open spec fn eq_spec(&self, other: &Self) -> bool {
        prop_eq(self@, other@)
    }
}

// ---------------------------------------------------------------------------
// Property maps
// ---------------------------------------------------------------------------

/// The property map of a scene node: string keys to property values, each
/// key at most once, viewed as a `Map` from key text to value.
///
/// The entries are a `Vec` of pairs with distinct keys rather than a
/// `HashMap<String, PropValue>`: vstd specifies `HashMap` lookups only for
/// key types its key model covers (`obeys_key_model`: the integers, `bool`
/// and a few more), not `String`, so over such a map no contract here
/// could say what a lookup returns. Lookups are linear in the
/// number of props, which stays small; entry order is not part of the view.
#[derive(Debug)]
pub struct PropMap {
    entries: Vec<(String, PropValue)>,
}

/// The keys of a list of entries, in order.
pub open spec fn entry_keys(s: Seq<(String, PropValue)>) -> Seq<Seq<char>> {
    s.map_values(|e: (String, PropValue)| e.0@)
}

/// Whether some entry has key `k`.
pub open spec fn has_key(s: Seq<(String, PropValue)>, k: Seq<char>) -> bool {
    exists|i: int| 0 <= i < s.len() && (#[trigger] s[i]).0@ == k
}

/// The map a list of entries with distinct keys stands for.
pub open spec fn entries_map(s: Seq<(String, PropValue)>) -> Map<Seq<char>, PropValueView> {
    Map::new(
        |k: Seq<char>| has_key(s, k),
        |k: Seq<char>| s[choose|i: int| 0 <= i < s.len() && (#[trigger] s[i]).0@ == k].1@,
    )
}

/// Entries with distinct keys.
pub open spec fn keys_distinct(s: Seq<(String, PropValue)>) -> bool {
    forall|i: int, j: int| 0 <= i < s.len() && 0 <= j < s.len() && i != j ==> (#[trigger] s[i]).0@ != (#[trigger] s[j]).0@
}

/// With distinct keys, the entry at `i` is what the map holds for its key.
proof fn lemma_entry_in_map(s: Seq<(String, PropValue)>, i: int)
    requires
        keys_distinct(s),
        0 <= i < s.len(),
    ensures
        entries_map(s).contains_key(s[i].0@),
        entries_map(s)[s[i].0@] == s[i].1@,
{
    let k = s[i].0@;
    assert(has_key(s, k));
    let j = choose|j: int| 0 <= j < s.len() && (#[trigger] s[j]).0@ == k;
    assert(j == i);
}

/// Property-map equality: the same keys, with equal values.
pub open spec fn prop_maps_eq(a: Map<Seq<char>, PropValueView>, b: Map<Seq<char>, PropValueView>) -> bool {
    a.dom() == b.dom() && forall|k: Seq<char>| #[trigger] a.contains_key(k) ==> prop_eq(a[k], b[k])
}

impl View for PropMap {
    type V = Map<Seq<char>, PropValueView>;

    closed spec fn view(&self) -> Map<Seq<char>, PropValueView> {
        entries_map(self.entries@)
    }
}

impl PropMap {
    #[verifier::type_invariant]
    spec fn distinct(&self) -> bool {
        keys_distinct(self.entries@)
    }

    /// An empty map.
    pub fn new() -> (m: Self)
        ensures
            m@ == Map::<Seq<char>, PropValueView>::empty(),
    {
        let m = PropMap { entries: Vec::new() };
        assert(m@ =~= Map::<Seq<char>, PropValueView>::empty());
        m
    }

    /// The index of the entry with key `key`, if any.
    fn find(&self, key: &str) -> (r: Option<usize>)
        ensures
            match r {
                Some(i) => i < self.entries@.len() && self.entries@[i as int].0@ == key@,
                None => !has_key(self.entries@, key@),
            },
    {
        let mut i: usize = 0;
        while i < self.entries.len()
            invariant
                i <= self.entries@.len(),
                forall|j: int| 0 <= j < i ==> (#[trigger] self.entries@[j]).0@ != key@,
            decreases self.entries@.len() - i,
        {
            if str_eq(self.entries[i].0.as_str(), key) {
                return Some(i);
            }
            i += 1;
        }
        None
    }

    /// The number of entries.
    pub fn len(&self) -> (n: usize)
        ensures
            n == self@.len(),
    {
        proof {
            use_type_invariant(self);
            self.lemma_len();
        }
        self.entries.len()
    }

    proof fn lemma_len(&self)
        requires
            keys_distinct(self.entries@),
        ensures
            self@.dom().finite(),
            self@.len() == self.entries@.len(),
    {
        let s = self.entries@;
        let ks = entry_keys(s);
        assert(ks.no_duplicates()) by {
            assert forall|i: int, j: int| 0 <= i < ks.len() && 0 <= j < ks.len() && i != j implies ks[i] != ks[j] by {
                assert(s[i].0@ != s[j].0@);
            }
        }
        ks.unique_seq_to_set();
        assert(self@.dom() =~= ks.to_set()) by {
            assert forall|k: Seq<char>| self@.dom().contains(k) implies ks.to_set().contains(k) by {
                let i = choose|i: int| 0 <= i < s.len() && (#[trigger] s[i]).0@ == k;
                assert(ks[i] == k);
            }
            assert forall|k: Seq<char>| ks.to_set().contains(k) implies self@.dom().contains(k) by {
                let i = choose|i: int| 0 <= i < ks.len() && ks[i] == k;
                assert(s[i].0@ == k);
            }
        }
    }

    /// Whether the map holds no entries.
    pub fn is_empty(&self) -> (b: bool)
        ensures
            b == (self@.len() == 0),
    {
        self.len() == 0
    }

    /// Whether `key` has an entry.
    pub fn contains_key(&self, key: &str) -> (b: bool)
        ensures
            b == self@.contains_key(key@),
    {
        self.find(key).is_some()
    }

    /// The value stored under `key`.
    pub fn get(&self, key: &str) -> (r: Option<&PropValue>)
        ensures
            match r {
                Some(v) => self@.contains_key(key@) && self@[key@] == v@,
                None => !self@.contains_key(key@),
            },
    {
        proof {
            use_type_invariant(self);
        }
        match self.find(key) {
            Some(i) => {
                proof {
                    lemma_entry_in_map(self.entries@, i as int);
                }
                Some(&self.entries[i].1)
            },
            None => None,
        }
    }

    /// Store `value` under `key`, returning the value it replaces.
    pub fn insert(&mut self, key: String, value: PropValue) -> (r: Option<PropValue>)
        ensures
            final(self)@ == old(self)@.insert(key@, value@),
            match r {
                Some(v) => old(self)@.contains_key(key@) && old(self)@[key@] == v@,
                None => !old(self)@.contains_key(key@),
            },
    {
        proof {
            use_type_invariant(&*self);
        }
        let ghost s0 = self.entries@;
        let ghost k = key@;
        let ghost v = value@;
        let found = self.find(key.as_str());
        let mut entries: Vec<(String, PropValue)> = Vec::new();
        std::mem::swap(&mut entries, &mut self.entries);
        match found {
            Some(i) => {
                proof {
                    lemma_entry_in_map(s0, i as int);
                }
                let mut slot = (key, value);
                entries.set_and_swap(i, &mut slot);
                proof {
                    let s1 = entries@;
                    assert(s1 == s0.update(i as int, s1[i as int]));
                    assert(keys_distinct(s1)) by {
                        assert forall|a: int, b: int| 0 <= a < s1.len() && 0 <= b < s1.len() && a != b implies (#[trigger] s1[a]).0@ != (#[trigger] s1[b]).0@ by {
                            if a != i && b != i {
                                assert(s1[a] == s0[a] && s1[b] == s0[b]);
                            } else if a == i {
                                assert(s0[b].0@ != s0[i as int].0@);
                            } else {
                                assert(s0[a].0@ != s0[i as int].0@);
                            }
                        }
                    }
                    assert(entries_map(s1) =~= entries_map(s0).insert(k, v)) by {
                        assert forall|q: Seq<char>| #[trigger] has_key(s1, q) == entries_map(s0).insert(k, v).contains_key(q) by {
                            if has_key(s1, q) {
                                let j = choose|j: int| 0 <= j < s1.len() && (#[trigger] s1[j]).0@ == q;
                                if j != i {
                                    assert(s0[j] == s1[j]);
                                    assert(has_key(s0, q));
                                }
                            }
                            if has_key(s0, q) {
                                let j = choose|j: int| 0 <= j < s0.len() && (#[trigger] s0[j]).0@ == q;
                                if j != i {
                                    assert(s0[j] == s1[j]);
                                }
                                assert(s1[j].0@ == q);
                            }
                            if q == k {
                                assert(s1[i as int].0@ == q);
                            }
                        }
                        assert forall|q: Seq<char>| #[trigger] has_key(s1, q) implies entries_map(s1)[q] == entries_map(s0).insert(k, v)[q] by {
                            let j = choose|j: int| 0 <= j < s1.len() && (#[trigger] s1[j]).0@ == q;
                            lemma_entry_in_map(s1, j);
                            if j != i {
                                assert(s0[j] == s1[j]);
                                lemma_entry_in_map(s0, j);
                            }
                        }
                    }
                }
                self.entries = entries;
                Some(slot.1)
            },
            None => {
                entries.push((key, value));
                proof {
                    let s1 = entries@;
                    let n = s0.len() as int;
                    assert(keys_distinct(s1)) by {
                        assert forall|a: int, b: int| 0 <= a < s1.len() && 0 <= b < s1.len() && a != b implies (#[trigger] s1[a]).0@ != (#[trigger] s1[b]).0@ by {
                            if a < n && b < n {
                                assert(s1[a] == s0[a] && s1[b] == s0[b]);
                            } else if a == n {
                                assert(s1[b] == s0[b]);
                            } else {
                                assert(s1[a] == s0[a]);
                            }
                        }
                    }
                    assert(entries_map(s1) =~= entries_map(s0).insert(k, v)) by {
                        assert forall|q: Seq<char>| #[trigger] has_key(s1, q) == entries_map(s0).insert(k, v).contains_key(q) by {
                            if has_key(s1, q) {
                                let j = choose|j: int| 0 <= j < s1.len() && (#[trigger] s1[j]).0@ == q;
                                if j < n {
                                    assert(s0[j] == s1[j]);
                                    assert(has_key(s0, q));
                                }
                            }
                            if has_key(s0, q) {
                                let j = choose|j: int| 0 <= j < s0.len() && (#[trigger] s0[j]).0@ == q;
                                assert(s1[j] == s0[j]);
                            }
                            if q == k {
                                assert(s1[n].0@ == q);
                            }
                        }
                        assert forall|q: Seq<char>| #[trigger] has_key(s1, q) implies entries_map(s1)[q] == entries_map(s0).insert(k, v)[q] by {
                            let j = choose|j: int| 0 <= j < s1.len() && (#[trigger] s1[j]).0@ == q;
                            lemma_entry_in_map(s1, j);
                            if j < n {
                                assert(s0[j] == s1[j]);
                                lemma_entry_in_map(s0, j);
                            }
                        }
                    }
                }
                self.entries = entries;
                None
            },
        }
    }
}

impl Clone for PropMap {
    fn clone(&self) -> (r: Self)
        ensures
            r@ == self@,
    {
        proof {
            use_type_invariant(self);
        }
        let mut entries: Vec<(String, PropValue)> = Vec::new();
        let mut i: usize = 0;
        while i < self.entries.len()
            invariant
                i <= self.entries@.len(),
                keys_distinct(self.entries@),
                entries@.len() == i,
                forall|j: int| 0 <= j < i ==> (#[trigger] entries@[j]).0@ == self.entries@[j].0@
                    && entries@[j].1@ == self.entries@[j].1@,
            decreases self.entries@.len() - i,
        {
            let k = self.entries[i].0.clone();
            let v = self.entries[i].1.clone();
            entries.push((k, v));
            i += 1;
        }
        let r = PropMap { entries };
        proof {
            let s = self.entries@;
            let t = r.entries@;
            assert(keys_distinct(t)) by {
                assert forall|a: int, b: int| 0 <= a < t.len() && 0 <= b < t.len() && a != b implies (#[trigger] t[a]).0@ != (#[trigger] t[b]).0@ by {
                    assert(s[a].0@ != s[b].0@);
                }
            }
            assert(r@ =~= self@) by {
                assert forall|q: Seq<char>| #[trigger] has_key(t, q) == has_key(s, q) by {
                    if has_key(t, q) {
                        let j = choose|j: int| 0 <= j < t.len() && (#[trigger] t[j]).0@ == q;
                        assert(s[j].0@ == q);
                    }
                    if has_key(s, q) {
                        let j = choose|j: int| 0 <= j < s.len() && (#[trigger] s[j]).0@ == q;
                        assert(t[j].0@ == q);
                    }
                }
                assert forall|q: Seq<char>| #[trigger] has_key(t, q) implies entries_map(t)[q] == entries_map(s)[q] by {
                    let j = choose|j: int| 0 <= j < t.len() && (#[trigger] t[j]).0@ == q;
                    lemma_entry_in_map(t, j);
                    lemma_entry_in_map(s, j);
                }
            }
        }
        r
    }
}

impl PartialEq for PropMap {
    fn eq(&self, other: &Self) -> (r: bool) {
        proof {
            use_type_invariant(self);
            use_type_invariant(other);
            self.lemma_len();
            other.lemma_len();
        }
        if self.entries.len() != other.entries.len() {
            return false;
        }
        let mut i: usize = 0;
        while i < self.entries.len()
            invariant
                i <= self.entries@.len(),
                keys_distinct(self.entries@),
                keys_distinct(other.entries@),
                self.entries@.len() == other.entries@.len(),
                self@.len() == self.entries@.len(),
                other@.len() == other.entries@.len(),
                self@.dom().finite(),
                other@.dom().finite(),
                forall|j: int| 0 <= j < i ==> other@.contains_key(#[trigger] self.entries@[j].0@)
                    && prop_eq(self.entries@[j].1@, other@[self.entries@[j].0@]),
            decreases self.entries@.len() - i,
        {
            match other.get(self.entries[i].0.as_str()) {
                Some(w) => {
                    if !(self.entries[i].1 == *w) {
                        proof {
                            lemma_entry_in_map(self.entries@, i as int);
                        }
                        return false;
                    }
                },
                None => {
                    proof {
                        lemma_entry_in_map(self.entries@, i as int);
                    }
                    return false;
                },
            }
            i += 1;
        }
        proof {
            let s = self.entries@;
            assert(self@.dom().subset_of(other@.dom())) by {
                assert forall|q: Seq<char>| self@.dom().contains(q) implies other@.dom().contains(q) by {
                    let j = choose|j: int| 0 <= j < s.len() && (#[trigger] s[j]).0@ == q;
                    assert(other@.contains_key(s[j].0@));
                }
            }
            vstd::set_lib::lemma_subset_equality(self@.dom(), other@.dom());
            assert forall|q: Seq<char>| #[trigger] self@.contains_key(q) implies prop_eq(self@[q], other@[q]) by {
                let j = choose|j: int| 0 <= j < s.len() && (#[trigger] s[j]).0@ == q;
                lemma_entry_in_map(s, j);
            }
        }
        true
    }
}

impl vstd::std_specs::cmp::PartialEqSpecImpl for PropMap {
    open spec fn obeys_eq_spec() -> bool {
        true
    }

    open spec fn eq_spec(&self, other: &Self) -> bool {
        prop_maps_eq(self@, other@)
    }
}

// ---------------------------------------------------------------------------
// Nodes and the scene's value
// ---------------------------------------------------------------------------

/// A node in the scene tree.
#[derive(Debug)]
pub struct SceneNode {
    /// This node's stable id.
    pub id: NodeId,
    /// What kind of node this is.
    pub kind: NodeKind,
    /// The node's visual style (colors, modifiers, border).
    pub style: Style,
    /// Ordered child ids; this list defines sibling order.
    pub children: Vec<NodeId>,
    /// Arbitrary per-node properties. Text content lives in `props["text"]`;
    /// layout keywords (flex direction, gap, ...) also ride here.
    pub props: PropMap,
    /// Parent id; `None` for the root.
    pub parent: Option<NodeId>,
    /// Incrementally appended spans for [`NodeKind::StreamingText`] nodes;
    /// `None` until the first span is appended.
    pub stream: Option<Vec<Span>>,
}

/// The value of a node.
pub struct NodeView {
    pub kind: NodeKind,
    pub style: StyleView,
    pub children: Seq<u64>,
    pub props: Map<Seq<char>, PropValueView>,
    pub parent: Option<u64>,
    pub stream: Option<Seq<SpanView>>,
}

/// The raw ids of a sequence of node ids.
pub open spec fn id_seq(v: Seq<NodeId>) -> Seq<u64> {
    v.map_values(|c: NodeId| c.0)
}

/// The value of a node.
pub open spec fn node_view(n: SceneNode) -> NodeView {
    NodeView {
        kind: n.kind,
        style: n.style@,
        children: id_seq(n.children@),
        props: n.props@,
        parent: match n.parent {
            Some(p) => Some(p.0),
            None => None,
        },
        stream: match n.stream {
            Some(v) => Some(span_views(v@)),
            None => None,
        },
    }
}

/// A fresh node: no children, no props, no stream.
pub open spec fn fresh_node(kind: NodeKind, style: StyleView, parent: Option<u64>) -> NodeView {
    NodeView {
        kind,
        style,
        children: Seq::empty(),
        props: Map::empty(),
        parent,
        stream: None,
    }
}

/// The value of a scene: its nodes by id, the id the next new node gets,
/// the mutation epoch, the ids mutated since the last drain, the
/// force-full-scan flag, and the semantics store.
pub struct SceneView {
    pub nodes: Map<u64, NodeView>,
    pub next_id: nat,
    pub epoch: u64,
    pub dirty: Set<u64>,
    pub force_full_scan: bool,
    pub semantics: Map<u64, SemanticsView>,
    pub semantics_enabled: bool,
}

/// A non-root node's parent exists, has a smaller id, and lists the node
/// among its children.
pub open spec fn parent_ok(m: Map<u64, NodeView>, i: u64) -> bool {
    match m[i].parent {
        Some(p) => p < i && m.contains_key(p) && m[p].children.contains(i),
        None => false,
    }
}

/// A node's children are distinct, exist, and name the node as their
/// parent.
pub open spec fn children_ok(m: Map<u64, NodeView>, i: u64) -> bool {
    &&& m[i].children.no_duplicates()
    &&& forall|k: int| 0 <= k < m[i].children.len() ==> m.contains_key(#[trigger] m[i].children[k])
        && m[m[i].children[k]].parent == Some(i)
}

/// Tree consistency: the root (id 0) exists and has no parent; every other
/// node hangs under an existing parent with a smaller id that lists it;
/// children lists are distinct and point back; ids stay below the next id;
/// semantics entries belong to existing nodes.
pub open spec fn tree_ok(v: SceneView) -> bool {
    &&& v.nodes.contains_key(0)
    &&& v.nodes[0].parent is None
    &&& forall|i: u64| #[trigger] v.nodes.contains_key(i) ==> (i as int) < v.next_id
    &&& forall|i: u64| #[trigger] v.nodes.contains_key(i) && i != 0 ==> parent_ok(v.nodes, i)
    &&& forall|i: u64| #[trigger] v.nodes.contains_key(i) ==> children_ok(v.nodes, i)
    &&& forall|i: u64| #[trigger] v.semantics.contains_key(i) ==> v.nodes.contains_key(i)
}

/// Whether slot `i` holds a node.
pub open spec fn present(s: Seq<Option<SceneNode>>, i: int) -> bool {
    0 <= i < s.len() && s[i] is Some
}

/// The nodes of a slot list, by id.
pub open spec fn nodes_map(s: Seq<Option<SceneNode>>) -> Map<u64, NodeView> {
    Map::new(|i: u64| present(s, i as int), |i: u64| node_view(s[i as int]->0))
}

/// The number of occupied slots.
pub open spec fn count_present(s: Seq<Option<SceneNode>>) -> nat
    decreases s.len(),
{
    if s.len() == 0 {
        0
    } else {
        count_present(s.drop_last()) + if s.last() is Some { 1nat } else { 0nat }
    }
}

proof fn lemma_count_dom(s: Seq<Option<SceneNode>>)
    requires
        s.len() <= u64::MAX + 1,
    ensures
        nodes_map(s).dom().finite(),
        nodes_map(s).dom().len() == count_present(s),
    decreases s.len(),
{
    if s.len() == 0 {
        assert(nodes_map(s).dom() =~= Set::<u64>::empty());
    } else {
        let t = s.drop_last();
        lemma_count_dom(t);
        let last = (s.len() - 1) as u64;
        if s.last() is Some {
            assert(nodes_map(s).dom() =~= nodes_map(t).dom().insert(last));
            assert(!nodes_map(t).dom().contains(last));
        } else {
            assert(nodes_map(s).dom() =~= nodes_map(t).dom());
        }
    }
}

proof fn lemma_count_update(s: Seq<Option<SceneNode>>, i: int, x: Option<SceneNode>)
    requires
        0 <= i < s.len(),
    ensures
        count_present(s.update(i, x)) + (if s[i] is Some { 1int } else { 0int })
            == count_present(s) + (if x is Some { 1int } else { 0int }),
    decreases s.len(),
{
    let u = s.update(i, x);
    if i == s.len() - 1 {
        assert(u.drop_last() =~= s.drop_last());
    } else {
        assert(u.drop_last() =~= s.drop_last().update(i, x));
        lemma_count_update(s.drop_last(), i, x);
    }
}

proof fn lemma_count_push(s: Seq<Option<SceneNode>>, x: Option<SceneNode>)
    ensures
        count_present(s.push(x)) == count_present(s) + if x is Some { 1nat } else { 0nat },
{
    assert(s.push(x).drop_last() =~= s);
}

/// Semantics entries with distinct ids.
pub open spec fn sem_keys_distinct(s: Seq<(NodeId, SemanticsNode)>) -> bool {
    forall|i: int, j: int| 0 <= i < s.len() && 0 <= j < s.len() && i != j ==> (#[trigger] s[i]).0 != (#[trigger] s[j]).0
}

/// Whether some semantics entry belongs to node `k`.
pub open spec fn sem_has(s: Seq<(NodeId, SemanticsNode)>, k: u64) -> bool {
    exists|i: int| 0 <= i < s.len() && (#[trigger] s[i]).0.0 == k
}

/// The semantics entries by node id.
pub open spec fn sem_map(s: Seq<(NodeId, SemanticsNode)>) -> Map<u64, SemanticsView> {
    Map::new(
        |k: u64| sem_has(s, k),
        |k: u64| semantics_view(s[choose|i: int| 0 <= i < s.len() && (#[trigger] s[i]).0.0 == k].1),
    )
}

proof fn lemma_sem_entry(s: Seq<(NodeId, SemanticsNode)>, i: int)
    requires
        sem_keys_distinct(s),
        0 <= i < s.len(),
    ensures
        sem_map(s).contains_key(s[i].0.0),
        sem_map(s)[s[i].0.0] == semantics_view(s[i].1),
{
    let k = s[i].0.0;
    assert(sem_has(s, k));
    let j = choose|j: int| 0 <= j < s.len() && (#[trigger] s[j]).0.0 == k;
    assert(j == i);
}

/// The dirty list names each id once, and exactly the ids of the dirty set.
pub open spec fn dirty_ok(ids: Seq<NodeId>, seen: Set<u64>) -> bool {
    id_seq(ids).no_duplicates() && seen == id_seq(ids).to_set()
}


/// Changing a node's payload (kind, style, props, stream) while keeping its
/// links keeps the tree consistent.
proof fn lemma_payload_keeps_tree(v0: SceneView, v1: SceneView, k: u64)
    requires
        tree_ok(v0),
        v0.nodes.contains_key(k),
        v1.nodes == v0.nodes.insert(k, v1.nodes[k]),
        v1.nodes[k].children == v0.nodes[k].children,
        v1.nodes[k].parent == v0.nodes[k].parent,
        v1.next_id == v0.next_id,
        v1.semantics.dom() == v0.semantics.dom(),
    ensures
        tree_ok(v1),
{
    assert(v1.nodes.dom() =~= v0.nodes.dom());
    assert forall|i: u64| #[trigger] v1.nodes.contains_key(i) && i != 0 implies parent_ok(v1.nodes, i) by {
        assert(parent_ok(v0.nodes, i));
    }
    assert forall|i: u64| #[trigger] v1.nodes.contains_key(i) implies children_ok(v1.nodes, i) by {
        assert(children_ok(v0.nodes, i));
        assert forall|j: int| 0 <= j < v1.nodes[i].children.len() implies v1.nodes.contains_key(#[trigger] v1.nodes[i].children[j])
            && v1.nodes[v1.nodes[i].children[j]].parent == Some(i) by {
            assert(v0.nodes.contains_key(v0.nodes[i].children[j]));
        }
    }
    assert forall|i: u64| #[trigger] v1.semantics.contains_key(i) implies v1.nodes.contains_key(i) by {
        assert(v0.semantics.contains_key(i));
    }
}

/// Writing slot `i` of a consistent slot list with a node of the same id
/// keeps the ids and the count, and changes the map at that id only.
proof fn lemma_slot_write(s0: Seq<Option<SceneNode>>, i: int, n: SceneNode)
    requires
        present(s0, i),
        s0[i]->0.id == n.id,
        s0.len() <= u64::MAX,
        forall|j: int| #[trigger] present(s0, j) ==> s0[j]->0.id.0 == j,
    ensures
        ({
            let s1 = s0.update(i, Some(n));
            &&& count_present(s1) == count_present(s0)
            &&& forall|j: int| #[trigger] present(s1, j) ==> s1[j]->0.id.0 == j
            &&& nodes_map(s1) == nodes_map(s0).insert(i as u64, node_view(n))
        }),
{
    let s1 = s0.update(i, Some(n));
    lemma_count_update(s0, i, Some(n));
    assert forall|j: int| #[trigger] present(s1, j) implies s1[j]->0.id.0 == j by {
        if j != i {
            assert(present(s0, j));
        }
    }
    assert(nodes_map(s1) =~= nodes_map(s0).insert(i as u64, node_view(n)));
}


/// The integer stored under `key` in a property map, if it is an integer.
pub open spec fn int_at(p: Map<Seq<char>, PropValueView>, key: Seq<char>) -> Option<i64> {
    if p.contains_key(key) {
        match p[key] {
            PropValueView::Int(i) => Some(i),
            _ => None,
        }
    } else {
        None
    }
}

/// The clip rect declared on a node by its `clip_x` / `clip_y` /
/// `clip_width` / `clip_height` integer props: `None` when the node is
/// missing, a prop is absent or no integer, or a dimension is negative.
pub open spec fn clip_rect_spec(v: SceneView, id: u64) -> Option<Rect> {
    if !v.nodes.contains_key(id) {
        None
    } else {
        let p = v.nodes[id].props;
        match (int_at(p, "clip_x"@), int_at(p, "clip_y"@), int_at(p, "clip_width"@), int_at(p, "clip_height"@)) {
            (Some(x), Some(y), Some(w), Some(h)) => if w < 0 || h < 0 {
                None
            } else {
                Some(Rect { x: x as i32, y: y as i32, width: w as u32, height: h as u32 })
            },
            _ => None,
        }
    }
}

/// An integer prop of a node, `0` when absent or no integer.
pub open spec fn int_or_zero(v: SceneView, id: u64, key: Seq<char>) -> i64 {
    if v.nodes.contains_key(id) {
        match int_at(v.nodes[id].props, key) {
            Some(i) => i,
            None => 0,
        }
    } else {
        0
    }
}

/// The result of a successful write to node `id`: its new value, the
/// epoch bumped once, the id recorded.
pub open spec fn written(v: SceneView, id: u64, n: NodeView) -> SceneView {
    SceneView {
        nodes: v.nodes.insert(id, n),
        epoch: (v.epoch + 1) as u64,
        dirty: v.dirty.insert(id),
        ..v
    }
}


/// A node with the given parts replaced (`None` keeps a part).
pub open spec fn updated_node(n: NodeView, kind: Option<NodeKind>, style: Option<Style>, props: Option<PropMap>) -> NodeView {
    NodeView {
        kind: match kind {
            Some(k) => k,
            None => n.kind,
        },
        style: match style {
            Some(s) => s@,
            None => n.style,
        },
        props: match props {
            Some(p) => p@,
            None => n.props,
        },
        ..n
    }
}


/// The scene after adding node `c` under `p`, with `p`'s children becoming
/// `children`.
pub open spec fn added(v: SceneView, p: u64, c: u64, children: Seq<u64>, kind: NodeKind, style: StyleView) -> SceneView {
    SceneView {
        nodes: v.nodes.insert(c, fresh_node(kind, style, Some(p))).insert(p, NodeView { children, ..v.nodes[p] }),
        next_id: v.next_id + 1,
        epoch: (v.epoch + 1) as u64,
        dirty: v.dirty.insert(c),
        ..v
    }
}

/// Whether `x` is `a` or lies below `a`, following parent links (which
/// always lead to smaller ids).
pub open spec fn descends(m: Map<u64, NodeView>, x: u64, a: u64) -> bool
    decreases x,
{
    if x == a {
        true
    } else if m.contains_key(x) {
        match m[x].parent {
            Some(p) => if p < x {
                descends(m, p, a)
            } else {
                false
            },
            None => false,
        }
    } else {
        false
    }
}

proof fn lemma_count_le_len(s: Seq<Option<SceneNode>>)
    ensures
        count_present(s) <= s.len(),
    decreases s.len(),
{
    if s.len() > 0 {
        lemma_count_le_len(s.drop_last());
    }
}

/// Adding a fresh node under an existing parent keeps the tree consistent.
proof fn lemma_add_keeps_tree(v0: SceneView, v1: SceneView, p: u64, c: u64, idx: int)
    requires
        tree_ok(v0),
        v0.nodes.contains_key(p),
        c as int == v0.next_id,
        0 <= idx <= v0.nodes[p].children.len(),
        v1.nodes == v0.nodes.insert(c, v1.nodes[c]).insert(p, NodeView {
            children: v0.nodes[p].children.insert(idx, c),
            ..v0.nodes[p]
        }),
        v1.nodes[c].children == Seq::<u64>::empty(),
        v1.nodes[c].parent == Some(p),
        v1.next_id == v0.next_id + 1,
        v1.semantics.dom() == v0.semantics.dom(),
    ensures
        tree_ok(v1),
{
    let old_children = v0.nodes[p].children;
    let nc = old_children.insert(idx, c);
    assert(!v0.nodes.contains_key(c));
    assert(!old_children.contains(c)) by {
        if old_children.contains(c) {
            let k = choose|k: int| 0 <= k < old_children.len() && old_children[k] == c;
            assert(children_ok(v0.nodes, p));
            assert(v0.nodes.contains_key(old_children[k]));
        }
    }
    assert(p != c);
    assert(nc.no_duplicates()) by {
        assert(children_ok(v0.nodes, p));
        assert forall|a: int, b: int| 0 <= a < nc.len() && 0 <= b < nc.len() && a != b implies nc[a] != nc[b] by {
            if a != idx && b != idx {
                let oa = if a < idx { a } else { a - 1 };
                let ob = if b < idx { b } else { b - 1 };
                assert(nc[a] == old_children[oa]);
                assert(nc[b] == old_children[ob]);
            } else if a == idx {
                let ob = if b < idx { b } else { b - 1 };
                assert(nc[b] == old_children[ob]);
            } else {
                let oa = if a < idx { a } else { a - 1 };
                assert(nc[a] == old_children[oa]);
            }
        }
    }
    assert forall|i: u64| #[trigger] v1.nodes.contains_key(i) implies (i as int) < v1.next_id by {
        if i != c && i != p {
            assert(v0.nodes.contains_key(i));
        }
    }
    assert forall|i: u64| #[trigger] v1.nodes.contains_key(i) && i != 0 implies parent_ok(v1.nodes, i) by {
        if i == c {
            assert(nc[idx] == c);
        } else {
            assert(v0.nodes.contains_key(i));
            assert(parent_ok(v0.nodes, i));
            let q = v0.nodes[i].parent->0;
            if q == p {
                let k = choose|k: int| 0 <= k < old_children.len() && old_children[k] == i;
                let k2 = if k < idx { k } else { k + 1 };
                assert(nc[k2] == i);
            }
        }
    }
    assert forall|i: u64| #[trigger] v1.nodes.contains_key(i) implies children_ok(v1.nodes, i) by {
        if i == c {
        } else if i == p {
            assert(children_ok(v0.nodes, p));
            assert forall|k: int| 0 <= k < nc.len() implies v1.nodes.contains_key(#[trigger] nc[k])
                && v1.nodes[nc[k]].parent == Some(i) by {
                if k != idx {
                    let ok = if k < idx { k } else { k - 1 };
                    assert(nc[k] == old_children[ok]);
                    assert(v0.nodes.contains_key(old_children[ok]));
                }
            }
        } else {
            assert(v0.nodes.contains_key(i));
            assert(children_ok(v0.nodes, i));
            assert forall|k: int| 0 <= k < v1.nodes[i].children.len() implies v1.nodes.contains_key(#[trigger] v1.nodes[i].children[k])
                && v1.nodes[v1.nodes[i].children[k]].parent == Some(i) by {
                let ch = v0.nodes[i].children[k];
                assert(v0.nodes.contains_key(ch));
                if ch == p {
                    assert(v0.nodes[p].parent == Some(i));
                }
            }
        }
    }
    assert forall|i: u64| #[trigger] v1.semantics.contains_key(i) implies v1.nodes.contains_key(i) by {
        assert(v0.semantics.contains_key(i));
    }
}


/// Tree consistency depends on the nodes, the next id and the semantics
/// domain only.
proof fn lemma_tree_frame(v0: SceneView, v1: SceneView)
    requires
        tree_ok(v0),
        v1.nodes == v0.nodes,
        v1.next_id == v0.next_id,
        v1.semantics == v0.semantics,
    ensures
        tree_ok(v1),
{
}


/// The ids of the subtree under `a` (including `a`).
pub open spec fn subtree(m: Map<u64, NodeView>, a: u64) -> Set<u64> {
    Set::new(|x: u64| m.contains_key(x) && descends(m, x, a))
}

/// In a consistent tree every node lies below the root.
proof fn lemma_descends_root(v: SceneView, x: u64)
    requires
        tree_ok(v),
        v.nodes.contains_key(x),
    ensures
        descends(v.nodes, x, 0),
    decreases x,
{
    if x != 0 {
        assert(parent_ok(v.nodes, x));
        let p = v.nodes[x].parent->0;
        lemma_descends_root(v, p);
    }
}

/// The position of `c` in a children list.
pub open spec fn child_index(children: Seq<u64>, c: u64) -> int {
    choose|k: int| 0 <= k < children.len() && children[k] == c
}

/// The scene after removing the subtree under `id`: its nodes and their
/// semantics entries are gone, `id` is detached from its parent, every
/// removed id is recorded, and the epoch is bumped once.
pub open spec fn removed(v: SceneView, id: u64) -> SceneView {
    let sub = subtree(v.nodes, id);
    let p = v.nodes[id].parent->0;
    let pc = v.nodes[p].children;
    SceneView {
        nodes: v.nodes.remove_keys(sub).insert(p, NodeView { children: pc.remove(child_index(pc, id)), ..v.nodes[p] }),
        epoch: (v.epoch + 1) as u64,
        dirty: v.dirty.union(sub),
        semantics: v.semantics.remove_keys(sub),
        ..v
    }
}

proof fn lemma_descends_ge(m: Map<u64, NodeView>, x: u64, a: u64)
    requires
        descends(m, x, a),
    ensures
        a <= x,
    decreases x,
{
    if x != a {
        let p = m[x].parent->0;
        lemma_descends_ge(m, p, a);
    }
}

/// In a consistent tree a non-root node descends from `a` exactly when it
/// is `a` or its parent descends from `a`.
proof fn lemma_descends_step(v: SceneView, x: u64, a: u64)
    requires
        tree_ok(v),
        v.nodes.contains_key(x),
        x != 0,
    ensures
        descends(v.nodes, x, a) == (x == a || descends(v.nodes, v.nodes[x].parent->0, a)),
{
    assert(parent_ok(v.nodes, x));
}

/// Removing a non-root subtree (and detaching it from its parent) keeps
/// the tree consistent.
proof fn lemma_remove_keeps_tree(v0: SceneView, id: u64)
    requires
        tree_ok(v0),
        id != 0,
        v0.nodes.contains_key(id),
    ensures
        tree_ok(removed(v0, id)),
        !subtree(v0.nodes, id).contains(v0.nodes[id].parent->0),
        v0.nodes.contains_key(v0.nodes[id].parent->0),
{
    let m = v0.nodes;
    let sub = subtree(m, id);
    let v1 = removed(v0, id);
    let nm = v1.nodes;
    assert(parent_ok(m, id));
    let p = m[id].parent->0;
    let pc = m[p].children;
    assert(pc.contains(id));
    let k = child_index(pc, id);
    assert(0 <= k < pc.len() && pc[k] == id);
    let npc = pc.remove(k);
    assert(children_ok(m, p));
    assert(!sub.contains(p)) by {
        if descends(m, p, id) {
            lemma_descends_ge(m, p, id);
        }
    }
    assert(!sub.contains(0)) by {
        if descends(m, 0, id) {
            lemma_descends_ge(m, 0, id);
        }
    }
    assert(sub.contains(id));
    assert(!npc.contains(id)) by {
        if npc.contains(id) {
            let j = choose|j: int| 0 <= j < npc.len() && npc[j] == id;
            let oj = if j < k { j } else { j + 1 };
            assert(pc[oj] == id);
        }
    }
    assert(npc.no_duplicates()) by {
        assert forall|a: int, b: int| 0 <= a < npc.len() && 0 <= b < npc.len() && a != b implies npc[a] != npc[b] by {
            let oa = if a < k { a } else { a + 1 };
            let ob = if b < k { b } else { b + 1 };
            assert(npc[a] == pc[oa] && npc[b] == pc[ob]);
        }
    }
    // Nodes outside the subtree have their parents outside it too.
    assert forall|i: u64| m.contains_key(i) && !sub.contains(i) && i != 0 implies !sub.contains(#[trigger] m[i].parent->0) by {
        lemma_descends_step(v0, i, id);
    }
    assert(nm.contains_key(0));
    assert(nm[0].parent is None);
    assert forall|i: u64| #[trigger] nm.contains_key(i) implies (i as int) < v1.next_id by {
        assert(m.contains_key(i));
    }
    assert forall|i: u64| #[trigger] nm.contains_key(i) && i != 0 implies parent_ok(nm, i) by {
        assert(m.contains_key(i) && !sub.contains(i));
        assert(parent_ok(m, i));
        let q = m[i].parent->0;
        assert(!sub.contains(q));
        assert(nm.contains_key(q));
        if q == p {
            let j = choose|j: int| 0 <= j < pc.len() && pc[j] == i;
            assert(j != k);
            let nj = if j < k { j } else { j - 1 };
            assert(npc[nj] == i);
        }
        assert(nm[i].parent == m[i].parent);
    }
    assert forall|y: u64| #[trigger] nm.contains_key(y) implies children_ok(nm, y) by {
        assert(m.contains_key(y) && !sub.contains(y));
        assert(children_ok(m, y));
        let ch = nm[y].children;
        assert forall|t: int| 0 <= t < ch.len() implies nm.contains_key(#[trigger] ch[t]) && nm[ch[t]].parent == Some(y) by {
            let c = ch[t];
            let ot = if y == p { if t < k { t } else { t + 1 } } else { t };
            assert(c == m[y].children[ot]);
            assert(m.contains_key(c) && m[c].parent == Some(y));
            if sub.contains(c) {
                if c == id {
                    assert(y == p);
                    assert(npc.contains(id));
                } else {
                    lemma_descends_step(v0, c, id);
                    assert(sub.contains(y));
                }
            }
            assert(!sub.contains(c));
            if c == 0 {
                assert(m[0].parent is None);
            }
        }
    }
    assert forall|i: u64| #[trigger] v1.semantics.contains_key(i) implies nm.contains_key(i) by {
        assert(v0.semantics.contains_key(i));
    }
}


/// A duplicate-free list of ids drawn from a finite set is no longer than
/// the set.
proof fn lemma_distinct_within(ids: Seq<u64>, dom: Set<u64>)
    requires
        ids.no_duplicates(),
        dom.finite(),
        forall|k: int| 0 <= k < ids.len() ==> dom.contains(#[trigger] ids[k]),
    ensures
        ids.len() <= dom.len(),
{
    ids.unique_seq_to_set();
    assert(ids.to_set().subset_of(dom));
    vstd::set_lib::lemma_len_subset(ids.to_set(), dom);
}


/// All but the last element of a list (the list before its last push).
pub open spec fn old_out(s: Seq<NodeId>) -> Seq<NodeId> {
    s.drop_last()
}

/// A list that holds `a` and every child of each of its members holds
/// every descendant of `a`.
proof fn lemma_in_closed_list(v: SceneView, out: Seq<NodeId>, a: u64, x: u64)
    requires
        tree_ok(v),
        id_seq(out).contains(a),
        forall|k: int, t: int| 0 <= k < out.len() && 0 <= t < v.nodes[out[k].0].children.len()
            ==> id_seq(out).contains(#[trigger] v.nodes[#[trigger] out[k].0].children[t]),
        v.nodes.contains_key(x),
        descends(v.nodes, x, a),
    ensures
        id_seq(out).to_set().contains(x),
    decreases x,
{
    if x != a {
        let m = v.nodes;
        lemma_descends_step(v, x, a);
        let p = m[x].parent->0;
        assert(parent_ok(m, x));
        lemma_in_closed_list(v, out, a, p);
        let j = choose|j: int| 0 <= j < id_seq(out).len() && id_seq(out)[j] == p;
        assert(out[j].0 == p);
        let t = choose|t: int| 0 <= t < m[p].children.len() && m[p].children[t] == x;
        assert(m[out[j].0].children[t] == x);
        assert(id_seq(out).contains(x));
    }
}


/// The depth-first walk's invariant over the pending stack and the
/// visited list: together they hold distinct descendants of `a`, including
/// `a`; each is `a` or has a visited parent; every child of a visited node
/// is pending or visited.
pub open spec fn dfs_inv(v: SceneView, a: u64, stack: Seq<NodeId>, out: Seq<NodeId>) -> bool {
    let m = v.nodes;
    let so = stack + out;
    &&& id_seq(so).no_duplicates()
    &&& forall|k: int| 0 <= k < so.len() ==> m.contains_key(#[trigger] so[k].0) && descends(m, so[k].0, a)
    &&& forall|k: int| 0 <= k < so.len() ==> (#[trigger] so[k]).0 == a || id_seq(out).contains(m[so[k].0].parent->0)
    &&& forall|k: int, t: int| 0 <= k < out.len() && 0 <= t < m[out[k].0].children.len()
        ==> id_seq(so).contains(#[trigger] m[#[trigger] out[k].0].children[t])
    &&& id_seq(so).contains(a)
    &&& m.dom().finite()
    &&& out.len() <= m.dom().len()
}

/// One step of the walk: pop `cur`, push its children, mark it visited.
#[verifier::rlimit(40)]
proof fn lemma_dfs_step(v: SceneView, a: u64, stack1: Seq<NodeId>, cur: NodeId, oo: Seq<NodeId>, ch: Seq<NodeId>)
    requires
        tree_ok(v),
        dfs_inv(v, a, stack1.push(cur), oo),
        v.nodes.contains_key(cur.0),
        id_seq(ch) == v.nodes[cur.0].children,
    ensures
        dfs_inv(v, a, stack1 + ch, oo.push(cur)),
        oo.len() < v.nodes.dom().len(),
{
    let m = v.nodes;
    let so0 = stack1.push(cur) + oo;
    let out1 = oo.push(cur);
    let so1 = stack1 + ch + out1;
    let n1 = stack1.len() as int;
    let nc = ch.len() as int;
    let no = oo.len() as int;
    let cs = m[cur.0].children;
    assert(so0 =~= stack1 + seq![cur] + oo);
    assert(so1 =~= stack1 + ch + oo + seq![cur]);
    assert(so0[n1] == cur);
    assert(children_ok(m, cur.0));
    assert(forall|t: int| 0 <= t < nc ==> (#[trigger] ch[t]).0 == cs[t]);
    // `cur` is not visited yet.
    assert(!id_seq(oo).contains(cur.0)) by {
        if id_seq(oo).contains(cur.0) {
            let j = choose|j: int| 0 <= j < id_seq(oo).len() && id_seq(oo)[j] == cur.0;
            assert(id_seq(so0)[n1 + 1 + j] == cur.0);
            assert(id_seq(so0)[n1] == cur.0);
        }
    }
    // A child of `cur` is neither pending nor visited.
    assert forall|t: int| 0 <= t < cs.len() implies !id_seq(so0).contains(#[trigger] cs[t]) by {
        let c = cs[t];
        if id_seq(so0).contains(c) {
            let j = choose|j: int| 0 <= j < id_seq(so0).len() && id_seq(so0)[j] == c;
            assert(so0[j].0 == c);
            assert(m[c].parent == Some(cur.0));
            if c == a {
                assert(descends(m, cur.0, a));
                lemma_descends_ge(m, cur.0, a);
                assert(c != 0);
                assert(parent_ok(m, c));
            } else {
                assert(id_seq(oo).contains(m[c].parent->0));
            }
        }
    }
    assert(id_seq(so1).no_duplicates()) by {
        assert forall|x: int, y: int| 0 <= x < so1.len() && 0 <= y < so1.len() && x != y
            implies id_seq(so1)[x] != id_seq(so1)[y] by {
            let fx = if x < n1 { x } else if x < n1 + nc { -1 } else if x < n1 + nc + no { x - nc + 1 } else { n1 };
            let fy = if y < n1 { y } else if y < n1 + nc { -1 } else if y < n1 + nc + no { y - nc + 1 } else { n1 };
            if fx >= 0 && fy >= 0 {
                assert(so1[x] == so0[fx] && so1[y] == so0[fy]);
                assert(id_seq(so0)[fx] != id_seq(so0)[fy]);
            } else if fx < 0 && fy < 0 {
                assert(so1[x].0 == cs[x - n1] && so1[y].0 == cs[y - n1]);
            } else if fx < 0 {
                assert(so1[x].0 == cs[x - n1]);
                assert(!id_seq(so0).contains(cs[x - n1]));
                assert(so1[y] == so0[fy]);
                assert(id_seq(so0)[fy] == so1[y].0);
            } else {
                assert(so1[y].0 == cs[y - n1]);
                assert(!id_seq(so0).contains(cs[y - n1]));
                assert(so1[x] == so0[fx]);
                assert(id_seq(so0)[fx] == so1[x].0);
            }
        }
    }
    assert forall|q: int| 0 <= q < so1.len() implies m.contains_key(#[trigger] so1[q].0) && descends(m, so1[q].0, a) by {
        if n1 <= q < n1 + nc {
            let c = cs[q - n1];
            assert(so1[q].0 == c);
            assert(m.contains_key(c) && m[c].parent == Some(cur.0));
            assert(descends(m, cur.0, a));
            if c == 0 {
                assert(m[0].parent is None);
            }
            lemma_descends_step(v, c, a);
        } else {
            let fq = if q < n1 { q } else if q < n1 + nc + no { q - nc + 1 } else { n1 };
            assert(so1[q] == so0[fq]);
        }
    }
    assert forall|q: int| 0 <= q < so1.len() implies (#[trigger] so1[q]).0 == a
        || id_seq(out1).contains(m[so1[q].0].parent->0) by {
        assert(id_seq(out1) =~= id_seq(oo).push(cur.0));
        if n1 <= q < n1 + nc {
            let c = cs[q - n1];
            assert(so1[q].0 == c);
            assert(m[c].parent == Some(cur.0));
            assert(id_seq(out1)[no] == cur.0);
        } else {
            let fq = if q < n1 { q } else if q < n1 + nc + no { q - nc + 1 } else { n1 };
            assert(so1[q] == so0[fq]);
            if so1[q].0 != a {
                let par = m[so1[q].0].parent->0;
                assert(id_seq(oo).contains(par));
                let j = choose|j: int| 0 <= j < id_seq(oo).len() && id_seq(oo)[j] == par;
                assert(id_seq(out1)[j] == par);
            }
        }
    }
    assert forall|kk: int, tt: int| 0 <= kk < out1.len() && 0 <= tt < m[out1[kk].0].children.len()
        implies id_seq(so1).contains(#[trigger] m[#[trigger] out1[kk].0].children[tt]) by {
        let c = m[out1[kk].0].children[tt];
        if kk == no {
            assert(out1[kk] == cur);
            assert(id_seq(so1)[n1 + tt] == c);
        } else {
            assert(out1[kk] == oo[kk]);
            assert(id_seq(so0).contains(c));
            let j = choose|j: int| 0 <= j < id_seq(so0).len() && id_seq(so0)[j] == c;
            let fj = if j < n1 { j } else if j == n1 { n1 + nc + no } else { j + nc - 1 };
            assert(so1[fj] == so0[j]);
            assert(id_seq(so1)[fj] == c);
        }
    }
    assert(id_seq(so1).contains(a)) by {
        let j = choose|j: int| 0 <= j < id_seq(so0).len() && id_seq(so0)[j] == a;
        let fj = if j < n1 { j } else if j == n1 { n1 + nc + no } else { j + nc - 1 };
        assert(so1[fj] == so0[j]);
        assert(id_seq(so1)[fj] == a);
    }
    assert forall|q: int| 0 <= q < id_seq(out1).len() implies m.dom().contains(#[trigger] id_seq(out1)[q]) by {
        assert(so1[n1 + nc + q] == out1[q]);
    }
    assert(id_seq(out1).no_duplicates()) by {
        assert forall|x: int, y: int| 0 <= x < id_seq(out1).len() && 0 <= y < id_seq(out1).len() && x != y
            implies id_seq(out1)[x] != id_seq(out1)[y] by {
            assert(id_seq(so1)[n1 + nc + x] == id_seq(out1)[x]);
            assert(id_seq(so1)[n1 + nc + y] == id_seq(out1)[y]);
        }
    }
    lemma_distinct_within(id_seq(out1), m.dom());
}

// ---------------------------------------------------------------------------
// The scene
// ---------------------------------------------------------------------------

/// An owned scene tree with an implicit root node (id 0).
///
/// All mutations keep parent/child links consistent: `add_child` links both
/// directions, `remove` detaches the node (and its whole subtree) from its
/// parent, and the root can never be removed.
///
/// Every successful mutation bumps [`Scene::epoch`] by one — a renderer can
/// skip repainting a scene whose epoch is unchanged since its last paint —
/// and records the id it changed in a dirty set that
/// [`Scene::take_dirty`] drains. Failed and equal-value writes change
/// nothing. Semantics writes bump the epoch but record no id: semantics can
/// never change painted content.
///
/// Nodes live in slots indexed by id: ids are handed out from 0 upward and
/// never reused, so id `i` is slot `i`, a lookup is an index, and the
/// proofs about subtrees and unused ids work over one sequence of slots.
/// The view is still a map from id to node, as a `HashMap` of nodes would
/// give. The dirty ids keep the order they were first recorded in beside a
/// `HashSet<u64>` of the same ids for membership tests (vstd's key model
/// covers `u64` keys); the view of the dirty set is that set.
#[derive(Debug)]
pub struct Scene {
    /// Node slots indexed by id; a removed node leaves its slot empty.
    nodes: Vec<Option<SceneNode>>,
    /// The number of occupied slots.
    live: usize,
    epoch: u64,
    /// The dirty ids, each once, in the order first recorded.
    dirty_ids: Vec<NodeId>,
    /// The same ids, for membership tests.
    dirty_seen: HashSet<u64>,
    force_full_scan: bool,
    /// The semantics entries, each node at most once.
    semantics: Vec<(NodeId, SemanticsNode)>,
    semantics_enabled: bool,
}

impl View for Scene {
    type V = SceneView;

    closed spec fn view(&self) -> SceneView {
        SceneView {
            nodes: nodes_map(self.nodes@),
            next_id: self.nodes@.len(),
            epoch: self.epoch,
            dirty: self.dirty_seen@,
            force_full_scan: self.force_full_scan,
            semantics: sem_map(self.semantics@),
            semantics_enabled: self.semantics_enabled,
        }
    }
}

/// The root node of a fresh scene.
pub open spec fn root_view() -> NodeView {
    fresh_node(NodeKind::Root, crate::style::plain_style(), None)
}

impl Scene {
    /// The scene's internal consistency: ids match slots, the live count,
    /// the dirty bookkeeping, distinct semantics entries, and [`tree_ok`].
    pub closed spec fn wf(&self) -> bool {
        &&& 1 <= self.nodes@.len() <= u64::MAX
        &&& forall|i: int| #[trigger] present(self.nodes@, i) ==> self.nodes@[i]->0.id.0 == i
        &&& self.live == count_present(self.nodes@)
        &&& dirty_ok(self.dirty_ids@, self.dirty_seen@)
        &&& sem_keys_distinct(self.semantics@)
        &&& tree_ok(self@)
    }

    /// A consistent scene is a tree (see [`tree_ok`]) with finitely many
    /// nodes.
    pub proof fn lemma_wf(&self)
        requires
            self.wf(),
        ensures
            tree_ok(self@),
            self@.nodes.dom().finite(),
    {
        lemma_count_dom(self.nodes@);
    }

    /// A new scene containing only the implicit root node.
    pub fn new() -> (s: Self)
        ensures
            s.wf(),
            s@.nodes == map![0u64 => root_view()],
            s@.next_id == 1,
            s@.epoch == 0,
            s@.dirty == Set::<u64>::empty(),
            !s@.force_full_scan,
            s@.semantics == Map::<u64, SemanticsView>::empty(),
            !s@.semantics_enabled,
    {
        let root = SceneNode {
            id: NodeId(0),
            kind: NodeKind::Root,
            style: Style::new(),
            children: Vec::new(),
            props: PropMap::new(),
            parent: None,
            stream: None,
        };
        let mut nodes: Vec<Option<SceneNode>> = Vec::new();
        nodes.push(Some(root));
        let s = Scene {
            nodes,
            live: 1,
            epoch: 0,
            dirty_ids: Vec::new(),
            dirty_seen: HashSet::new(),
            force_full_scan: false,
            semantics: Vec::new(),
            semantics_enabled: false,
        };
        proof {
            assert(s.nodes@.drop_last() =~= Seq::<Option<SceneNode>>::empty());
            assert(count_present(Seq::<Option<SceneNode>>::empty()) == 0);
            assert(s.nodes@.last() is Some);
            assert(count_present(s.nodes@) == 1);
            assert(present(s.nodes@, 0));
            assert forall|i: int| #[trigger] present(s.nodes@, i) implies s.nodes@[i]->0.id.0 == i by {
                assert(i == 0);
            }
            assert(s@.nodes.contains_key(0));
            assert forall|i: u64| #[trigger] s@.nodes.contains_key(i) implies i == 0 by {}
            assert(tree_ok(s@));
            assert(id_seq(s.dirty_ids@) =~= Seq::<u64>::empty());
            assert(id_seq(s.dirty_ids@).to_set() =~= Set::<u64>::empty());
            assert(s@.nodes =~= map![0u64 => root_view()]);
            assert(node_view(s.nodes@[0]->0).children =~= Seq::<u64>::empty());
            assert(s@.semantics =~= Map::<u64, SemanticsView>::empty());
        }
        s
    }

    /// The scene's mutation epoch: the number of successful mutations since
    /// construction.
    pub fn epoch(&self) -> (e: u64)
        ensures
            e == self@.epoch,
    {
        self.epoch
    }

    /// Whether another node can be added: the id space is not exhausted.
    pub fn has_free_id(&self) -> (b: bool)
        requires
            self.wf(),
        ensures
            b == (self@.next_id < u64::MAX),
    {
        (self.nodes.len() as u64) < u64::MAX
    }

    /// The id of the implicit root node.
    pub fn root_id(&self) -> (id: NodeId)
        ensures
            id == NodeId(0),
    {
        NodeId(0)
    }

    /// Number of nodes in the scene (including the root).
    pub fn len(&self) -> (n: usize)
        requires
            self.wf(),
        ensures
            n == self@.nodes.len(),
    {
        proof {
            lemma_count_dom(self.nodes@);
        }
        self.live
    }

    /// Whether the scene contains no nodes (never true: the root always
    /// exists).
    pub fn is_empty(&self) -> (b: bool)
        requires
            self.wf(),
        ensures
            b == (self@.nodes.len() == 0),
            !b,
    {
        proof {
            lemma_count_dom(self.nodes@);
            assert(self@.nodes.dom().contains(0));
        }
        self.live == 0
    }

    /// The slot of node `id`, when it exists.
    fn slot_of(&self, id: NodeId) -> (r: Option<usize>)
        requires
            self.nodes@.len() <= u64::MAX,
        ensures
            r is Some <==> self@.nodes.contains_key(id.0),
            r matches Some(i) ==> i as u64 == id.0 && present(self.nodes@, i as int),
    {
        if id.0 < self.nodes.len() as u64 {
            let i = id.0 as usize;
            if self.nodes[i].is_some() {
                return Some(i);
            }
        }
        None
    }

    /// Immutable access to a node.
    pub fn node(&self, id: NodeId) -> (r: Option<&SceneNode>)
        requires
            self.wf(),
        ensures
            match r {
                Some(n) => self@.nodes.contains_key(id.0) && node_view(*n) == self@.nodes[id.0] && n.id == id,
                None => !self@.nodes.contains_key(id.0),
            },
    {
        match self.slot_of(id) {
            Some(i) => self.nodes[i].as_ref(),
            None => None,
        }
    }

    /// The ordered child ids of a node.
    pub fn children(&self, id: NodeId) -> (r: Option<&[NodeId]>)
        requires
            self.wf(),
        ensures
            match r {
                Some(c) => self@.nodes.contains_key(id.0) && id_seq(c@) == self@.nodes[id.0].children,
                None => !self@.nodes.contains_key(id.0),
            },
    {
        match self.node(id) {
            Some(n) => Some(n.children.as_slice()),
            None => None,
        }
    }

    /// Read a property from a node.
    pub fn prop(&self, id: NodeId, key: &str) -> (r: Option<&PropValue>)
        requires
            self.wf(),
        ensures
            match r {
                Some(v) => self@.nodes.contains_key(id.0) && self@.nodes[id.0].props.contains_key(key@)
                    && self@.nodes[id.0].props[key@] == v@,
                None => !self@.nodes.contains_key(id.0) || !self@.nodes[id.0].props.contains_key(key@),
            },
    {
        match self.node(id) {
            Some(n) => n.props.get(key),
            None => None,
        }
    }

    /// The stream of a node, or `None` when the node does not exist or has
    /// no stream.
    pub fn stream(&self, id: NodeId) -> (r: Option<&[Span]>)
        requires
            self.wf(),
        ensures
            match r {
                Some(v) => self@.nodes.contains_key(id.0) && self@.nodes[id.0].stream == Some(span_views(v@)),
                None => !self@.nodes.contains_key(id.0) || self@.nodes[id.0].stream is None,
            },
    {
        match self.node(id) {
            Some(n) => match &n.stream {
                Some(v) => Some(v.as_slice()),
                None => None,
            },
            None => None,
        }
    }

    /// Record `id` as mutated.
    fn mark_dirty(&mut self, id: NodeId)
        requires
            dirty_ok(old(self).dirty_ids@, old(self).dirty_seen@),
        ensures
            dirty_ok(final(self).dirty_ids@, final(self).dirty_seen@),
            final(self).dirty_seen@ == old(self).dirty_seen@.insert(id.0),
            final(self).nodes == old(self).nodes,
            final(self).live == old(self).live,
            final(self).epoch == old(self).epoch,
            final(self).force_full_scan == old(self).force_full_scan,
            final(self).semantics == old(self).semantics,
            final(self).semantics_enabled == old(self).semantics_enabled,
    {
        if !self.dirty_seen.contains(&id.0) {
            let ghost before = self.dirty_ids@;
            self.dirty_seen.insert(id.0);
            self.dirty_ids.push(id);
            proof {
                assert(id_seq(self.dirty_ids@) =~= id_seq(before).push(id.0));
                assert(!id_seq(before).contains(id.0));
                assert(id_seq(self.dirty_ids@).no_duplicates()) by {
                    let t = id_seq(self.dirty_ids@);
                    assert forall|a: int, b: int| 0 <= a < t.len() && 0 <= b < t.len() && a != b implies t[a] != t[b] by {
                        if a < before.len() && b < before.len() {
                        } else if a == before.len() {
                            assert(id_seq(before)[b] == t[b]);
                        } else {
                            assert(id_seq(before)[a] == t[a]);
                        }
                    }
                }
                id_seq(before).lemma_push_to_set_commute(id.0);
                assert(id_seq(self.dirty_ids@).to_set() =~= id_seq(before).to_set().insert(id.0));
            }
        } else {
            assert(self.dirty_seen@.insert(id.0) =~= self.dirty_seen@);
        }
    }

    /// Drain the dirty set: the ids of the nodes mutated since the last
    /// drain (each once), and whether a raw [`Scene::node_mut`] borrow
    /// forces a full paint-signature scan. Draining resets both; it never
    /// changes the epoch.
    pub fn take_dirty(&mut self) -> (r: (Vec<NodeId>, bool))
        requires
            old(self).wf(),
        ensures
            final(self).wf(),
            id_seq(r.0@).no_duplicates(),
            id_seq(r.0@).to_set() == old(self)@.dirty,
            r.1 == old(self)@.force_full_scan,
            final(self)@ == (SceneView { dirty: Set::empty(), force_full_scan: false, ..old(self)@ }),
    {
        let mut ids: Vec<NodeId> = Vec::new();
        std::mem::swap(&mut ids, &mut self.dirty_ids);
        self.dirty_seen = HashSet::new();
        let force = self.force_full_scan;
        self.force_full_scan = false;
        proof {
            assert(id_seq(self.dirty_ids@) =~= Seq::<u64>::empty());
            assert(id_seq(self.dirty_ids@).to_set() =~= Set::<u64>::empty());
            assert(self@ =~= (SceneView { dirty: Set::empty(), force_full_scan: false, ..old(self)@ }));
        }
        (ids, force)
    }

    /// Whether the semantics store accepts writes.
    pub fn semantics_enabled(&self) -> (b: bool)
        ensures
            b == self@.semantics_enabled,
    {
        self.semantics_enabled
    }

    /// The index of node `id`'s semantics entry, if any.
    fn sem_index(&self, id: NodeId) -> (r: Option<usize>)
        ensures
            match r {
                Some(i) => i < self.semantics@.len() && self.semantics@[i as int].0 == id,
                None => !sem_has(self.semantics@, id.0),
            },
    {
        let mut i: usize = 0;
        while i < self.semantics.len()
            invariant
                i <= self.semantics@.len(),
                forall|j: int| 0 <= j < i ==> (#[trigger] self.semantics@[j]).0.0 != id.0,
            decreases self.semantics@.len() - i,
        {
            if self.semantics[i].0.0 == id.0 {
                return Some(i);
            }
            i += 1;
        }
        None
    }

    /// The semantics of a node, or `None` when the node has none. Reads are
    /// not gated by the store's enable flag.
    pub fn semantics(&self, id: NodeId) -> (r: Option<&SemanticsNode>)
        requires
            self.wf(),
        ensures
            match r {
                Some(n) => self@.semantics.contains_key(id.0) && self@.semantics[id.0] == semantics_view(*n),
                None => !self@.semantics.contains_key(id.0),
            },
    {
        match self.sem_index(id) {
            Some(i) => {
                proof {
                    lemma_sem_entry(self.semantics@, i as int);
                }
                Some(&self.semantics[i].1)
            },
            None => None,
        }
    }

    /// Replace a node's style. Returns `false` when the node does not
    /// exist. An equal-value write changes nothing (no epoch bump, no dirty
    /// id).
    pub fn set_style(&mut self, id: NodeId, style: Style) -> (r: bool)
        requires
            old(self).wf(),
            old(self)@.epoch < u64::MAX,
        ensures
            final(self).wf(),
            r == old(self)@.nodes.contains_key(id.0),
            !r || old(self)@.nodes[id.0].style == style@ ==> final(self)@ == old(self)@,
            r && old(self)@.nodes[id.0].style != style@ ==> final(self)@ == (SceneView {
                nodes: old(self)@.nodes.insert(id.0, NodeView { style: style@, ..old(self)@.nodes[id.0] }),
                epoch: (old(self)@.epoch + 1) as u64,
                dirty: old(self)@.dirty.insert(id.0),
                ..old(self)@
            }),
    {
        let i = match self.slot_of(id) {
            Some(i) => i,
            None => {
                return false;
            },
        };
        if self.nodes[i].as_ref().unwrap().style == style {
            return true;
        }
        let ghost s0 = self.nodes@;
        let ghost v0 = self@;
        match self.nodes[i].as_mut() {
            Some(n) => {
                n.style = style;
            },
            None => {},
        }
        proof {
            let n1 = self.nodes@[i as int]->0;
            assert(self.nodes@ == s0.update(i as int, Some(n1)));
            lemma_slot_write(s0, i as int, n1);
        }
        self.epoch = self.epoch + 1;
        self.mark_dirty(id);
        proof {
            assert(self@.nodes =~= v0.nodes.insert(id.0, NodeView { style: style@, ..v0.nodes[id.0] }));
            lemma_payload_keeps_tree(v0, self@, id.0);
        }
        true
    }

    /// Replace a node's kind. Returns `false` when the node does not exist.
    pub fn set_kind(&mut self, id: NodeId, kind: NodeKind) -> (r: bool)
        requires
            old(self).wf(),
            old(self)@.epoch < u64::MAX,
        ensures
            final(self).wf(),
            r == old(self)@.nodes.contains_key(id.0),
            !r ==> final(self)@ == old(self)@,
            r ==> final(self)@ == written(old(self)@, id.0, NodeView { kind, ..old(self)@.nodes[id.0] }),
    {
        let i = match self.slot_of(id) {
            Some(i) => i,
            None => {
                return false;
            },
        };
        let ghost s0 = self.nodes@;
        let ghost v0 = self@;
        match self.nodes[i].as_mut() {
            Some(n) => {
                n.kind = kind;
            },
            None => {},
        }
        proof {
            let n1 = self.nodes@[i as int]->0;
            assert(self.nodes@ == s0.update(i as int, Some(n1)));
            lemma_slot_write(s0, i as int, n1);
        }
        self.epoch = self.epoch + 1;
        self.mark_dirty(id);
        proof {
            assert(self@.nodes =~= v0.nodes.insert(id.0, NodeView { kind, ..v0.nodes[id.0] }));
            lemma_payload_keeps_tree(v0, self@, id.0);
        }
        true
    }

    /// Replace a node's entire property map. Returns `false` when the node
    /// does not exist. An equal map changes nothing.
    pub fn set_props(&mut self, id: NodeId, props: PropMap) -> (r: bool)
        requires
            old(self).wf(),
            old(self)@.epoch < u64::MAX,
        ensures
            final(self).wf(),
            r == old(self)@.nodes.contains_key(id.0),
            !r || prop_maps_eq(old(self)@.nodes[id.0].props, props@) ==> final(self)@ == old(self)@,
            r && !prop_maps_eq(old(self)@.nodes[id.0].props, props@) ==> final(self)@ == written(
                old(self)@,
                id.0,
                NodeView { props: props@, ..old(self)@.nodes[id.0] },
            ),
    {
        let i = match self.slot_of(id) {
            Some(i) => i,
            None => {
                return false;
            },
        };
        if self.nodes[i].as_ref().unwrap().props == props {
            return true;
        }
        let ghost s0 = self.nodes@;
        let ghost v0 = self@;
        let ghost pv = props@;
        match self.nodes[i].as_mut() {
            Some(n) => {
                n.props = props;
            },
            None => {},
        }
        proof {
            let n1 = self.nodes@[i as int]->0;
            assert(self.nodes@ == s0.update(i as int, Some(n1)));
            lemma_slot_write(s0, i as int, n1);
        }
        self.epoch = self.epoch + 1;
        self.mark_dirty(id);
        proof {
            assert(self@.nodes =~= v0.nodes.insert(id.0, NodeView { props: pv, ..v0.nodes[id.0] }));
            lemma_payload_keeps_tree(v0, self@, id.0);
        }
        true
    }

    /// Set a single property on a node. Returns `false` when the node does
    /// not exist. When the stored value already equals `value` nothing
    /// changes.
    pub fn set_prop(&mut self, id: NodeId, key: &str, value: PropValue) -> (r: bool)
        requires
            old(self).wf(),
            old(self)@.epoch < u64::MAX,
        ensures
            final(self).wf(),
            r == old(self)@.nodes.contains_key(id.0),
            !r || (old(self)@.nodes[id.0].props.contains_key(key@)
                && prop_eq(old(self)@.nodes[id.0].props[key@], value@)) ==> final(self)@ == old(self)@,
            r && !(old(self)@.nodes[id.0].props.contains_key(key@)
                && prop_eq(old(self)@.nodes[id.0].props[key@], value@)) ==> final(self)@ == written(
                old(self)@,
                id.0,
                NodeView { props: old(self)@.nodes[id.0].props.insert(key@, value@), ..old(self)@.nodes[id.0] },
            ),
    {
        let i = match self.slot_of(id) {
            Some(i) => i,
            None => {
                return false;
            },
        };
        match self.nodes[i].as_ref().unwrap().props.get(key) {
            Some(v) => {
                if *v == value {
                    return true;
                }
            },
            None => {},
        }
        let ghost s0 = self.nodes@;
        let ghost v0 = self@;
        let ghost vv = value@;
        match self.nodes[i].as_mut() {
            Some(n) => {
                n.props.insert(key.to_owned(), value);
            },
            None => {},
        }
        proof {
            let n1 = self.nodes@[i as int]->0;
            assert(self.nodes@ == s0.update(i as int, Some(n1)));
            lemma_slot_write(s0, i as int, n1);
        }
        self.epoch = self.epoch + 1;
        self.mark_dirty(id);
        proof {
            assert(self@.nodes =~= v0.nodes.insert(
                id.0,
                NodeView { props: v0.nodes[id.0].props.insert(key@, vv), ..v0.nodes[id.0] },
            ));
            lemma_payload_keeps_tree(v0, self@, id.0);
        }
        true
    }

    /// Update any combination of kind / style / props on a node; `None`
    /// leaves a field untouched. Returns `false` when the node does not
    /// exist.
    pub fn update(&mut self, id: NodeId, kind: Option<NodeKind>, style: Option<Style>, props: Option<PropMap>) -> (r: bool)
        requires
            old(self).wf(),
            old(self)@.epoch < u64::MAX,
        ensures
            final(self).wf(),
            r == old(self)@.nodes.contains_key(id.0),
            !r ==> final(self)@ == old(self)@,
            r ==> final(self)@ == written(old(self)@, id.0, updated_node(old(self)@.nodes[id.0], kind, style, props)),
    {
        let i = match self.slot_of(id) {
            Some(i) => i,
            None => {
                return false;
            },
        };
        let ghost s0 = self.nodes@;
        let ghost v0 = self@;
        let ghost nv = updated_node(v0.nodes[id.0], kind, style, props);
        match self.nodes[i].as_mut() {
            Some(n) => {
                match kind {
                    Some(k) => {
                        n.kind = k;
                    },
                    None => {},
                }
                match style {
                    Some(st) => {
                        n.style = st;
                    },
                    None => {},
                }
                match props {
                    Some(p) => {
                        n.props = p;
                    },
                    None => {},
                }
            },
            None => {},
        }
        proof {
            let n1 = self.nodes@[i as int]->0;
            assert(self.nodes@ == s0.update(i as int, Some(n1)));
            lemma_slot_write(s0, i as int, n1);
        }
        self.epoch = self.epoch + 1;
        self.mark_dirty(id);
        proof {
            assert(self@.nodes =~= v0.nodes.insert(id.0, nv));
            lemma_payload_keeps_tree(v0, self@, id.0);
        }
        true
    }

    /// Append a styled span to a [`NodeKind::StreamingText`] node's stream,
    /// creating the stream on the first append. Returns `false` when the
    /// node does not exist or is not a `StreamingText` node.
    pub fn append_span(&mut self, id: NodeId, span: Span) -> (r: bool)
        requires
            old(self).wf(),
            old(self)@.epoch < u64::MAX,
        ensures
            final(self).wf(),
            r == (old(self)@.nodes.contains_key(id.0) && old(self)@.nodes[id.0].kind == NodeKind::StreamingText),
            !r ==> final(self)@ == old(self)@,
            r ==> final(self)@ == written(old(self)@, id.0, NodeView {
                stream: Some(
                    match old(self)@.nodes[id.0].stream {
                        Some(v) => v,
                        None => Seq::empty(),
                    }.push((span.text@, span.style@)),
                ),
                ..old(self)@.nodes[id.0]
            }),
    {
        let i = match self.slot_of(id) {
            Some(i) => i,
            None => {
                return false;
            },
        };
        if self.nodes[i].as_ref().unwrap().kind != NodeKind::StreamingText {
            return false;
        }
        let ghost s0 = self.nodes@;
        let ghost v0 = self@;
        let ghost sv = (span.text@, span.style@);
        match self.nodes[i].as_mut() {
            Some(n) => {
                let mut v = match n.stream.take() {
                    Some(v) => v,
                    None => Vec::new(),
                };
                let ghost before = v@;
                v.push(span);
                proof {
                    assert(span_views(v@) =~= span_views(before).push(sv));
                }
                n.stream = Some(v);
            },
            None => {},
        }
        proof {
            let n1 = self.nodes@[i as int]->0;
            assert(self.nodes@ == s0.update(i as int, Some(n1)));
            lemma_slot_write(s0, i as int, n1);
        }
        self.epoch = self.epoch + 1;
        self.mark_dirty(id);
        proof {
            assert(span_views(Seq::<Span>::empty()) =~= Seq::<SpanView>::empty());
            assert(self@.nodes =~= v0.nodes.insert(id.0, NodeView {
                stream: Some(
                    match v0.nodes[id.0].stream {
                        Some(v) => v,
                        None => Seq::empty(),
                    }.push(sv),
                ),
                ..v0.nodes[id.0]
            }));
            lemma_payload_keeps_tree(v0, self@, id.0);
        }
        true
    }

    /// Read an integer property from a node.
    fn int_prop(&self, id: NodeId, key: &str) -> (r: Option<i64>)
        requires
            self.wf(),
        ensures
            r == (if self@.nodes.contains_key(id.0) { int_at(self@.nodes[id.0].props, key@) } else { None }),
    {
        match self.prop(id, key) {
            Some(PropValue::Int(i)) => Some(*i),
            _ => None,
        }
    }

    /// The clip rect declared on a node via the `clip_x` / `clip_y` /
    /// `clip_width` / `clip_height` props (see [`clip_rect_spec`]).
    pub fn clip_rect(&self, id: NodeId) -> (r: Option<Rect>)
        requires
            self.wf(),
        ensures
            r == clip_rect_spec(self@, id.0),
    {
        let x = match self.int_prop(id, "clip_x") {
            Some(v) => v,
            None => {
                return None;
            },
        };
        let y = match self.int_prop(id, "clip_y") {
            Some(v) => v,
            None => {
                return None;
            },
        };
        let width = match self.int_prop(id, "clip_width") {
            Some(v) => v,
            None => {
                return None;
            },
        };
        let height = match self.int_prop(id, "clip_height") {
            Some(v) => v,
            None => {
                return None;
            },
        };
        if width < 0 || height < 0 {
            return None;
        }
        Some(Rect::new(x as i32, y as i32, width as u32, height as u32))
    }

    /// Set a node's clip rect via the `clip_x` / `clip_y` / `clip_width` /
    /// `clip_height` props. Returns `false` when the node does not exist.
    pub fn set_clip_rect(&mut self, id: NodeId, clip: Rect) -> (r: bool)
        requires
            old(self).wf(),
            old(self)@.epoch < u64::MAX,
        ensures
            final(self).wf(),
            r == old(self)@.nodes.contains_key(id.0),
            !r ==> final(self)@ == old(self)@,
            r ==> final(self)@ == written(old(self)@, id.0, NodeView {
                props: old(self)@.nodes[id.0].props
                    .insert("clip_x"@, PropValueView::Int(clip.x as i64))
                    .insert("clip_y"@, PropValueView::Int(clip.y as i64))
                    .insert("clip_width"@, PropValueView::Int(clip.width as i64))
                    .insert("clip_height"@, PropValueView::Int(clip.height as i64)),
                ..old(self)@.nodes[id.0]
            }),
    {
        let i = match self.slot_of(id) {
            Some(i) => i,
            None => {
                return false;
            },
        };
        let ghost s0 = self.nodes@;
        let ghost v0 = self@;
        match self.nodes[i].as_mut() {
            Some(n) => {
                n.props.insert("clip_x".to_owned(), PropValue::Int(clip.x as i64));
                n.props.insert("clip_y".to_owned(), PropValue::Int(clip.y as i64));
                n.props.insert("clip_width".to_owned(), PropValue::Int(clip.width as i64));
                n.props.insert("clip_height".to_owned(), PropValue::Int(clip.height as i64));
            },
            None => {},
        }
        proof {
            let n1 = self.nodes@[i as int]->0;
            assert(self.nodes@ == s0.update(i as int, Some(n1)));
            lemma_slot_write(s0, i as int, n1);
        }
        self.epoch = self.epoch + 1;
        self.mark_dirty(id);
        proof {
            assert(self@.nodes =~= v0.nodes.insert(id.0, NodeView {
                props: v0.nodes[id.0].props
                    .insert("clip_x"@, PropValueView::Int(clip.x as i64))
                    .insert("clip_y"@, PropValueView::Int(clip.y as i64))
                    .insert("clip_width"@, PropValueView::Int(clip.width as i64))
                    .insert("clip_height"@, PropValueView::Int(clip.height as i64)),
                ..v0.nodes[id.0]
            }));
            lemma_payload_keeps_tree(v0, self@, id.0);
        }
        true
    }

    /// The scroll offset declared on a node via the `scroll_x` /
    /// `scroll_y` props (in cells), each `0` when absent.
    pub fn scroll_offset(&self, id: NodeId) -> (r: (i32, i32))
        requires
            self.wf(),
        ensures
            r == (int_or_zero(self@, id.0, "scroll_x"@) as i32, int_or_zero(self@, id.0, "scroll_y"@) as i32),
    {
        let x = match self.int_prop(id, "scroll_x") {
            Some(v) => v,
            None => 0,
        };
        let y = match self.int_prop(id, "scroll_y") {
            Some(v) => v,
            None => 0,
        };
        (x as i32, y as i32)
    }

    /// Set a node's scroll offset via the `scroll_x` / `scroll_y` props.
    /// Returns `false` when the node does not exist.
    pub fn set_scroll_offset(&mut self, id: NodeId, x: i32, y: i32) -> (r: bool)
        requires
            old(self).wf(),
            old(self)@.epoch < u64::MAX,
        ensures
            final(self).wf(),
            r == old(self)@.nodes.contains_key(id.0),
            !r ==> final(self)@ == old(self)@,
            r ==> final(self)@ == written(old(self)@, id.0, NodeView {
                props: old(self)@.nodes[id.0].props
                    .insert("scroll_x"@, PropValueView::Int(x as i64))
                    .insert("scroll_y"@, PropValueView::Int(y as i64)),
                ..old(self)@.nodes[id.0]
            }),
    {
        let i = match self.slot_of(id) {
            Some(i) => i,
            None => {
                return false;
            },
        };
        let ghost s0 = self.nodes@;
        let ghost v0 = self@;
        match self.nodes[i].as_mut() {
            Some(n) => {
                n.props.insert("scroll_x".to_owned(), PropValue::Int(x as i64));
                n.props.insert("scroll_y".to_owned(), PropValue::Int(y as i64));
            },
            None => {},
        }
        proof {
            let n1 = self.nodes@[i as int]->0;
            assert(self.nodes@ == s0.update(i as int, Some(n1)));
            assert(n1.id == s0[i as int]->0.id);
            assert(n1.children == s0[i as int]->0.children);
            assert(n1.parent == s0[i as int]->0.parent);
            lemma_slot_write(s0, i as int, n1);
        }
        self.epoch = self.epoch + 1;
        self.mark_dirty(id);
        proof {
            assert(self@.nodes =~= v0.nodes.insert(id.0, NodeView {
                props: v0.nodes[id.0].props
                    .insert("scroll_x"@, PropValueView::Int(x as i64))
                    .insert("scroll_y"@, PropValueView::Int(y as i64)),
                ..v0.nodes[id.0]
            }));
            lemma_payload_keeps_tree(v0, self@, id.0);
        }
        true
    }

    /// Add node `c` (the next id) under the parent in slot `pi`, at
    /// position `idx` of the parent's children.
    fn attach(&mut self, pi: usize, idx: usize, kind: NodeKind, style: Style) -> (c: NodeId)
        requires
            old(self).wf(),
            present(old(self).nodes@, pi as int),
            idx <= old(self).nodes@[pi as int]->0.children@.len(),
            old(self)@.epoch < u64::MAX,
            old(self)@.next_id < u64::MAX,
        ensures
            final(self).wf(),
            c.0 == old(self)@.next_id,
            final(self)@ == added(old(self)@, pi as u64, c.0, old(self)@.nodes[pi as u64].children.insert(idx as int, c.0), kind, style@),
    {
        let ghost v0 = self@;
        let ghost s0 = self.nodes@;
        let ghost sv = style@;
        let n = self.nodes.len();
        let c = NodeId(n as u64);
        let parent = NodeId(pi as u64);
        proof {
            lemma_count_le_len(s0);
            assert(present(s0, pi as int));
        }
        let node = SceneNode {
            id: c,
            kind,
            style,
            children: Vec::new(),
            props: PropMap::new(),
            parent: Some(parent),
            stream: None,
        };
        self.nodes.push(Some(node));
        let grown = self.nodes.len();
        assert(grown == n + 1);
        let ghost s1 = self.nodes@;
        match self.nodes[pi].as_mut() {
            Some(pn) => {
                pn.children.insert(idx, c);
            },
            None => {},
        }
        self.live = self.live + 1;
        self.epoch = self.epoch + 1;
        self.mark_dirty(c);
        proof {
            let s2 = self.nodes@;
            let pn1 = s2[pi as int]->0;
            assert(s2 == s1.update(pi as int, Some(pn1)));
            lemma_count_push(s0, s1[n as int]);
            lemma_count_update(s1, pi as int, Some(pn1));
            assert forall|j: int| #[trigger] present(s2, j) implies s2[j]->0.id.0 == j by {
                if j != pi && j != n {
                    assert(present(s0, j));
                }
            }
            assert(id_seq(pn1.children@) =~= id_seq(s0[pi as int]->0.children@).insert(idx as int, c.0));
            let nc = v0.nodes[pi as u64].children.insert(idx as int, c.0);
            assert(self@.nodes =~= v0.nodes.insert(c.0, fresh_node(kind, sv, Some(pi as u64))).insert(
                pi as u64,
                NodeView { children: nc, ..v0.nodes[pi as u64] },
            )) by {
                assert(node_view(s2[n as int]->0).children =~= Seq::<u64>::empty());
                assert(node_view(s2[n as int]->0) == fresh_node(kind, sv, Some(pi as u64)));
            }
            lemma_add_keeps_tree(v0, self@, pi as u64, c.0, idx as int);
            assert(self@ =~= added(v0, pi as u64, c.0, nc, kind, sv));
        }
        c
    }

    /// Append a new child of `kind` under `parent`. Returns the new node's
    /// id (the scene's next id), or `None` when `parent` does not exist.
    pub fn add_child(&mut self, parent: NodeId, kind: NodeKind, style: Style) -> (r: Option<NodeId>)
        requires
            old(self).wf(),
            old(self)@.epoch < u64::MAX,
            old(self)@.next_id < u64::MAX,
        ensures
            final(self).wf(),
            r is Some <==> old(self)@.nodes.contains_key(parent.0),
            r is None ==> final(self)@ == old(self)@,
            r matches Some(c) ==> c.0 == old(self)@.next_id && final(self)@ == added(
                old(self)@,
                parent.0,
                c.0,
                old(self)@.nodes[parent.0].children.push(c.0),
                kind,
                style@,
            ),
    {
        let pi = match self.slot_of(parent) {
            Some(i) => i,
            None => {
                return None;
            },
        };
        let len = self.nodes[pi].as_ref().unwrap().children.len();
        let c = self.attach(pi, len, kind, style);
        proof {
            let old_children = old(self)@.nodes[parent.0].children;
            assert(old_children.insert(len as int, c.0) =~= old_children.push(c.0));
        }
        Some(c)
    }

    /// Insert a new child of `kind` under `parent` at `index` in the
    /// parent's children (an `index` past the end appends). Returns `None`
    /// when `parent` does not exist or `kind` is [`NodeKind::Root`] (the
    /// scene's single root is never a child).
    pub fn insert_child(&mut self, parent: NodeId, index: usize, kind: NodeKind, style: Style) -> (r: Option<NodeId>)
        requires
            old(self).wf(),
            old(self)@.epoch < u64::MAX,
            old(self)@.next_id < u64::MAX,
        ensures
            final(self).wf(),
            r is Some <==> (old(self)@.nodes.contains_key(parent.0) && kind != NodeKind::Root),
            r is None ==> final(self)@ == old(self)@,
            r matches Some(c) ==> c.0 == old(self)@.next_id && final(self)@ == added(
                old(self)@,
                parent.0,
                c.0,
                old(self)@.nodes[parent.0].children.insert(
                    if index <= old(self)@.nodes[parent.0].children.len() { index as int } else { old(self)@.nodes[parent.0].children.len() as int },
                    c.0,
                ),
                kind,
                style@,
            ),
    {
        let pi = match self.slot_of(parent) {
            Some(i) => i,
            None => {
                return None;
            },
        };
        if kind == NodeKind::Root {
            return None;
        }
        let len = self.nodes[pi].as_ref().unwrap().children.len();
        let idx = if index <= len { index } else { len };
        let c = self.attach(pi, idx, kind, style);
        Some(c)
    }

    /// Add a [`NodeKind::Text`] leaf under `parent` with its `text` prop set
    /// to `content`. Returns `None` when `parent` does not exist.
    pub fn add_text(&mut self, parent: NodeId, content: &str, style: Style) -> (r: Option<NodeId>)
        requires
            old(self).wf(),
            old(self)@.epoch < u64::MAX - 1,
            old(self)@.next_id < u64::MAX,
        ensures
            final(self).wf(),
            r is Some <==> old(self)@.nodes.contains_key(parent.0),
            r is None ==> final(self)@ == old(self)@,
            r matches Some(c) ==> c.0 == old(self)@.next_id && final(self)@ == written(
                added(old(self)@, parent.0, c.0, old(self)@.nodes[parent.0].children.push(c.0), NodeKind::Text, style@),
                c.0,
                NodeView {
                    props: Map::<Seq<char>, PropValueView>::empty().insert("text"@, PropValueView::Str(content@)),
                    ..fresh_node(NodeKind::Text, style@, Some(parent.0))
                },
            ),
    {
        let id = match self.add_child(parent, NodeKind::Text, style) {
            Some(id) => id,
            None => {
                return None;
            },
        };
        self.set_prop(id, "text", PropValue::Str(content.to_owned()));
        Some(id)
    }

    /// Mutable access to a node. The borrow is raw, so every call counts as
    /// a mutation: the epoch is bumped, the id recorded, and the
    /// force-full-scan flag set. What the caller writes through the borrow
    /// is the new node as it stands; keeping the tree's links consistent
    /// through it is the caller's part.
    pub fn node_mut(&mut self, id: NodeId) -> (r: Option<&mut SceneNode>)
        requires
            old(self).wf(),
            old(self)@.epoch < u64::MAX,
        ensures
            r is Some <==> old(self)@.nodes.contains_key(id.0),
            final(self)@.epoch == old(self)@.epoch + 1,
            final(self)@.dirty == old(self)@.dirty.insert(id.0),
            final(self)@.force_full_scan,
            final(self)@.next_id == old(self)@.next_id,
            final(self)@.semantics == old(self)@.semantics,
            final(self)@.semantics_enabled == old(self)@.semantics_enabled,
            r is None ==> final(self)@.nodes == old(self)@.nodes && final(self).wf(),
            r is Some ==> node_view(*r.unwrap()) == old(self)@.nodes[id.0] && r.unwrap().id == id,
            r is Some ==> final(self)@.nodes == old(self)@.nodes.insert(id.0, node_view(*final(r.unwrap()))),
    {
        let ghost v0 = self@;
        self.epoch = self.epoch + 1;
        self.mark_dirty(id);
        self.force_full_scan = true;
        proof {
            lemma_tree_frame(v0, self@);
        }
        match self.slot_of(id) {
            Some(i) => self.nodes[i].as_mut(),
            None => None,
        }
    }

    /// Whether `id` is `ancestor` itself or a descendant of it.
    pub fn is_descendant(&self, id: NodeId, ancestor: NodeId) -> (r: bool)
        requires
            self.wf(),
        ensures
            r == descends(self@.nodes, id.0, ancestor.0),
    {
        if id.0 == ancestor.0 {
            return true;
        }
        let ghost m = self@.nodes;
        proof {
            self.lemma_wf();
        }
        let mut cur = id;
        loop
            invariant
                self.wf(),
                m == self@.nodes,
                cur.0 != ancestor.0,
                descends(m, id.0, ancestor.0) == descends(m, cur.0, ancestor.0),
            decreases cur.0,
        {
            match self.node(cur) {
                Some(n) => match n.parent {
                    Some(p) => {
                        proof {
                            assert(m[cur.0].parent == Some(p.0));
                            if cur.0 != 0 {
                                assert(parent_ok(m, cur.0));
                            }
                            assert(p.0 < cur.0);
                            assert(descends(m, cur.0, ancestor.0) == descends(m, p.0, ancestor.0));
                        }
                        if p.0 == ancestor.0 {
                            proof {
                                assert(descends(m, p.0, ancestor.0));
                            }
                            return true;
                        }
                        cur = p;
                    },
                    None => {
                        return false;
                    },
                },
                None => {
                    return false;
                },
            }
        }
    }

    /// Turn the semantics store on or off. Returns `true` when the flag
    /// changed (the epoch bumps), `false` when it already had the requested
    /// value (nothing changes). Disabling keeps the stored entries.
    pub fn set_semantics_enabled(&mut self, enabled: bool) -> (r: bool)
        requires
            old(self).wf(),
            old(self)@.epoch < u64::MAX,
        ensures
            final(self).wf(),
            r == (old(self)@.semantics_enabled != enabled),
            !r ==> final(self)@ == old(self)@,
            r ==> final(self)@ == (SceneView {
                semantics_enabled: enabled,
                epoch: (old(self)@.epoch + 1) as u64,
                ..old(self)@
            }),
    {
        if self.semantics_enabled == enabled {
            return false;
        }
        self.semantics_enabled = enabled;
        self.epoch = self.epoch + 1;
        true
    }

    /// Set the accessibility semantics of a node. Returns `false` when the
    /// store is disabled or the node does not exist. An equal entry changes
    /// nothing; a real write bumps the epoch but records no dirty id.
    pub fn set_semantics(&mut self, id: NodeId, node: SemanticsNode) -> (r: bool)
        requires
            old(self).wf(),
            old(self)@.epoch < u64::MAX,
        ensures
            final(self).wf(),
            r == (old(self)@.semantics_enabled && old(self)@.nodes.contains_key(id.0)),
            !r || (old(self)@.semantics.contains_key(id.0) && old(self)@.semantics[id.0] == semantics_view(node))
                ==> final(self)@ == old(self)@,
            r && !(old(self)@.semantics.contains_key(id.0) && old(self)@.semantics[id.0] == semantics_view(node))
                ==> final(self)@ == (SceneView {
                semantics: old(self)@.semantics.insert(id.0, semantics_view(node)),
                epoch: (old(self)@.epoch + 1) as u64,
                ..old(self)@
            }),
    {
        if !self.semantics_enabled {
            return false;
        }
        if self.slot_of(id).is_none() {
            return false;
        }
        let ghost v0 = self@;
        let ghost s0 = self.semantics@;
        let ghost nv = semantics_view(node);
        match self.sem_index(id) {
            Some(i) => {
                if crate::semantics::same_semantics(&self.semantics[i].1, &node) {
                    proof {
                        lemma_sem_entry(s0, i as int);
                    }
                    return true;
                }
                let mut slot = (id, node);
                self.semantics.set_and_swap(i, &mut slot);
                proof {
                    let s1 = self.semantics@;
                    lemma_sem_entry(s0, i as int);
                    assert(sem_keys_distinct(s1)) by {
                        assert forall|a: int, b: int| 0 <= a < s1.len() && 0 <= b < s1.len() && a != b implies (#[trigger] s1[a]).0 != (#[trigger] s1[b]).0 by {
                            if a != i && b != i {
                                assert(s1[a] == s0[a] && s1[b] == s0[b]);
                            } else if a == i {
                                assert(s0[b].0 != s0[i as int].0);
                            } else {
                                assert(s0[a].0 != s0[i as int].0);
                            }
                        }
                    }
                    assert(sem_map(s1) =~= sem_map(s0).insert(id.0, nv)) by {
                        assert forall|q: u64| #[trigger] sem_has(s1, q) == sem_map(s0).insert(id.0, nv).contains_key(q) by {
                            if sem_has(s1, q) {
                                let j = choose|j: int| 0 <= j < s1.len() && (#[trigger] s1[j]).0.0 == q;
                                if j != i {
                                    assert(s0[j] == s1[j]);
                                    assert(sem_has(s0, q));
                                }
                            }
                            if sem_has(s0, q) {
                                let j = choose|j: int| 0 <= j < s0.len() && (#[trigger] s0[j]).0.0 == q;
                                if j != i {
                                    assert(s0[j] == s1[j]);
                                }
                                assert(s1[j].0.0 == q);
                            }
                            if q == id.0 {
                                assert(s1[i as int].0.0 == q);
                            }
                        }
                        assert forall|q: u64| #[trigger] sem_has(s1, q) implies sem_map(s1)[q] == sem_map(s0).insert(id.0, nv)[q] by {
                            let j = choose|j: int| 0 <= j < s1.len() && (#[trigger] s1[j]).0.0 == q;
                            lemma_sem_entry(s1, j);
                            if j != i {
                                assert(s0[j] == s1[j]);
                                lemma_sem_entry(s0, j);
                            }
                        }
                    }
                }
            },
            None => {
                self.semantics.push((id, node));
                proof {
                    let s1 = self.semantics@;
                    let n = s0.len() as int;
                    assert(sem_keys_distinct(s1)) by {
                        assert forall|a: int, b: int| 0 <= a < s1.len() && 0 <= b < s1.len() && a != b implies (#[trigger] s1[a]).0 != (#[trigger] s1[b]).0 by {
                            if a < n && b < n {
                                assert(s1[a] == s0[a] && s1[b] == s0[b]);
                            } else if a == n {
                                assert(s1[b] == s0[b]);
                                assert(!sem_has(s0, id.0));
                            } else {
                                assert(s1[a] == s0[a]);
                                assert(!sem_has(s0, id.0));
                            }
                        }
                    }
                    assert(sem_map(s1) =~= sem_map(s0).insert(id.0, nv)) by {
                        assert forall|q: u64| #[trigger] sem_has(s1, q) == sem_map(s0).insert(id.0, nv).contains_key(q) by {
                            if sem_has(s1, q) {
                                let j = choose|j: int| 0 <= j < s1.len() && (#[trigger] s1[j]).0.0 == q;
                                if j < n {
                                    assert(s0[j] == s1[j]);
                                    assert(sem_has(s0, q));
                                }
                            }
                            if sem_has(s0, q) {
                                let j = choose|j: int| 0 <= j < s0.len() && (#[trigger] s0[j]).0.0 == q;
                                assert(s1[j] == s0[j]);
                            }
                            if q == id.0 {
                                assert(s1[n].0.0 == q);
                            }
                        }
                        assert forall|q: u64| #[trigger] sem_has(s1, q) implies sem_map(s1)[q] == sem_map(s0).insert(id.0, nv)[q] by {
                            let j = choose|j: int| 0 <= j < s1.len() && (#[trigger] s1[j]).0.0 == q;
                            lemma_sem_entry(s1, j);
                            if j < n {
                                assert(s0[j] == s1[j]);
                                lemma_sem_entry(s0, j);
                            }
                        }
                    }
                }
            },
        }
        self.epoch = self.epoch + 1;
        proof {
            let v1 = self@;
            assert forall|q: u64| #[trigger] v1.semantics.contains_key(q) implies v1.nodes.contains_key(q) by {
                if q != id.0 {
                    assert(v0.semantics.contains_key(q));
                }
            }
            assert(v1 =~= (SceneView { semantics: v0.semantics.insert(id.0, nv), epoch: (v0.epoch + 1) as u64, ..v0 }));
        }
        true
    }

    /// Remove a node's semantics entry. Returns `true` when an entry
    /// existed (the epoch bumps), `false` when there was nothing to clear.
    /// Not gated by the enable flag.
    pub fn clear_semantics(&mut self, id: NodeId) -> (r: bool)
        requires
            old(self).wf(),
            old(self)@.epoch < u64::MAX,
        ensures
            final(self).wf(),
            r == old(self)@.semantics.contains_key(id.0),
            !r ==> final(self)@ == old(self)@,
            r ==> final(self)@ == (SceneView {
                semantics: old(self)@.semantics.remove(id.0),
                epoch: (old(self)@.epoch + 1) as u64,
                ..old(self)@
            }),
    {
        let ghost v0 = self@;
        let ghost s0 = self.semantics@;
        let i = match self.sem_index(id) {
            Some(i) => i,
            None => {
                return false;
            },
        };
        proof {
            lemma_sem_entry(s0, i as int);
        }
        self.semantics.remove(i);
        self.epoch = self.epoch + 1;
        proof {
            let s1 = self.semantics@;
            assert(s1 =~= s0.remove(i as int));
            assert(sem_keys_distinct(s1)) by {
                assert forall|a: int, b: int| 0 <= a < s1.len() && 0 <= b < s1.len() && a != b implies (#[trigger] s1[a]).0 != (#[trigger] s1[b]).0 by {
                    let oa = if a < i { a } else { a + 1 };
                    let ob = if b < i { b } else { b + 1 };
                    assert(s1[a] == s0[oa] && s1[b] == s0[ob]);
                }
            }
            assert(sem_map(s1) =~= sem_map(s0).remove(id.0)) by {
                assert forall|q: u64| #[trigger] sem_has(s1, q) == sem_map(s0).remove(id.0).contains_key(q) by {
                    if sem_has(s1, q) {
                        let j = choose|j: int| 0 <= j < s1.len() && (#[trigger] s1[j]).0.0 == q;
                        let oj = if j < i { j } else { j + 1 };
                        assert(s1[j] == s0[oj]);
                        assert(sem_has(s0, q));
                        assert(oj != i);
                    }
                    if sem_has(s0, q) && q != id.0 {
                        let j = choose|j: int| 0 <= j < s0.len() && (#[trigger] s0[j]).0.0 == q;
                        assert(j != i);
                        let nj = if j < i { j } else { j - 1 };
                        assert(s1[nj] == s0[j]);
                    }
                }
                assert forall|q: u64| #[trigger] sem_has(s1, q) implies sem_map(s1)[q] == sem_map(s0)[q] by {
                    let j = choose|j: int| 0 <= j < s1.len() && (#[trigger] s1[j]).0.0 == q;
                    let oj = if j < i { j } else { j + 1 };
                    assert(s1[j] == s0[oj]);
                    lemma_sem_entry(s1, j);
                    lemma_sem_entry(s0, oj);
                }
            }
            let v1 = self@;
            assert forall|q: u64| #[trigger] v1.semantics.contains_key(q) implies v1.nodes.contains_key(q) by {
                assert(v0.semantics.contains_key(q));
            }
            assert(v1 =~= (SceneView { semantics: v0.semantics.remove(id.0), epoch: (v0.epoch + 1) as u64, ..v0 }));
        }
        true
    }

    /// The ids of every node in the scene, each once: a depth-first walk
    /// from the root over the children lists (in a consistent tree every
    /// node lies below the root).
    pub fn node_ids(&self) -> (r: Vec<NodeId>)
        requires
            self.wf(),
        ensures
            id_seq(r@).no_duplicates(),
            id_seq(r@).to_set() == self@.nodes.dom(),
    {
        proof {
            self.lemma_wf();
        }
        let r = self.collect_subtree(NodeId(0));
        proof {
            assert forall|x: u64| self@.nodes.contains_key(x) implies #[trigger] subtree(self@.nodes, 0).contains(x) by {
                lemma_descends_root(self@, x);
            }
            assert(subtree(self@.nodes, 0) =~= self@.nodes.dom());
        }
        r
    }

    /// The ids of `id` and every node below it, each once.
    pub fn subtree_ids(&self, id: NodeId) -> (r: Vec<NodeId>)
        requires
            self.wf(),
            self@.nodes.contains_key(id.0),
        ensures
            id_seq(r@).no_duplicates(),
            id_seq(r@).to_set() == subtree(self@.nodes, id.0),
    {
        self.collect_subtree(id)
    }

    /// The ids of the subtree under `id`, each once (a depth-first walk
    /// over the children lists).
    fn collect_subtree(&self, id: NodeId) -> (r: Vec<NodeId>)
        requires
            self.wf(),
            self@.nodes.contains_key(id.0),
        ensures
            id_seq(r@).no_duplicates(),
            id_seq(r@).to_set() == subtree(self@.nodes, id.0),
    {
        proof {
            self.lemma_wf();
        }
        let ghost v = self@;
        let ghost m = self@.nodes;
        let ghost a = id.0;
        let mut out: Vec<NodeId> = Vec::new();
        let mut stack: Vec<NodeId> = Vec::new();
        stack.push(id);
        proof {
            assert(stack@ + out@ =~= seq![id]);
            assert(id_seq(stack@ + out@)[0] == a);
        }
        while stack.len() > 0
            invariant
                self.wf(),
                tree_ok(v),
                v == self@,
                m == v.nodes,
                m.dom().finite(),
                dfs_inv(v, a, stack@, out@),
            decreases m.dom().len() - out@.len(),
        {
            let ghost oo = out@;
            let ghost st0 = stack@;
            let cur = stack.pop().unwrap();
            let ghost stack1 = stack@;
            proof {
                assert(st0 =~= stack1.push(cur));
                let so0 = stack1.push(cur) + oo;
                assert(so0[stack1.len() as int] == cur);
                assert(m.contains_key(so0[stack1.len() as int].0));
            }
            let node = self.node(cur).unwrap();
            let ghost cs = m[cur.0].children;
            let mut t: usize = 0;
            while t < node.children.len()
                invariant
                    0 <= t <= node.children@.len(),
                    stack@.len() == stack1.len() + t,
                    stack@.take(stack1.len() as int) == stack1,
                    forall|u: int| 0 <= u < t ==> stack@[stack1.len() + u] == (#[trigger] node.children@[u]),
                decreases node.children@.len() - t,
            {
                stack.push(node.children[t]);
                t += 1;
            }
            out.push(cur);
            proof {
                assert(stack@ =~= stack1 + node.children@) by {
                    assert forall|q: int| 0 <= q < stack1.len() implies stack@[q] == stack1[q] by {
                        assert(stack@[q] == stack@.take(stack1.len() as int)[q]);
                    }
                }
                assert(out@ =~= oo.push(cur));
                assert(id_seq(node.children@) == cs);
                lemma_dfs_step(v, a, stack1, cur, oo, node.children@);
                assert(stack1 + node.children@ =~= stack@);
            }
        }
        proof {
            assert(stack@ + out@ =~= out@);
            let ids = id_seq(out@);
            assert forall|x: u64| ids.to_set().contains(x) implies #[trigger] subtree(m, a).contains(x) by {
                let j = choose|j: int| 0 <= j < ids.len() && ids[j] == x;
                assert((stack@ + out@)[j] == out@[j]);
            }
            assert forall|x: u64| #[trigger] subtree(m, a).contains(x) implies ids.to_set().contains(x) by {
                lemma_in_closed_list(v, out@, a, x);
            }
            assert(ids.to_set() =~= subtree(m, a));
        }
        out
    }

    /// Remove `id` and all of its descendants: detach `id` from its
    /// parent, drop every removed node (with its stream) and its semantics
    /// entry, record every removed id as dirty, and bump the epoch once. The
    /// root cannot be removed. Returns whether anything was removed.
    #[verifier::rlimit(40)]
    pub fn remove(&mut self, id: NodeId) -> (r: bool)
        requires
            old(self).wf(),
            old(self)@.epoch < u64::MAX,
        ensures
            final(self).wf(),
            r == (id.0 != 0 && old(self)@.nodes.contains_key(id.0)),
            !r ==> final(self)@ == old(self)@,
            r ==> final(self)@ == removed(old(self)@, id.0),
    {
        if id.0 == 0 {
            return false;
        }
        let slot = match self.slot_of(id) {
            Some(i) => i,
            None => {
                return false;
            },
        };
        let ghost v0 = self@;
        let ghost s0 = self.nodes@;
        let ghost m = v0.nodes;
        let ghost sub = subtree(m, id.0);
        proof {
            self.lemma_wf();
            lemma_remove_keeps_tree(v0, id.0);
            assert(parent_ok(m, id.0));
        }
        let gone = self.collect_subtree(id);
        // Detach `id` from its parent.
        let p = self.nodes[slot].as_ref().unwrap().parent.unwrap();
        let pi = p.0 as usize;
        let ghost pc = m[p.0].children;
        proof {
            assert(present(s0, pi as int));
            assert(children_ok(m, p.0));
        }
        let mut k: usize = 0;
        {
            let pn = self.nodes[pi].as_ref().unwrap();
            while k < pn.children.len() && pn.children[k].0 != id.0
                invariant
                    id_seq(pn.children@) == pc,
                    pc.contains(id.0),
                    k <= pc.len(),
                    forall|q: int| 0 <= q < k ==> pc[q] != id.0,
                decreases pc.len() - k,
            {
                k += 1;
            }
            proof {
                if k == pc.len() {
                    let w = choose|w: int| 0 <= w < pc.len() && pc[w] == id.0;
                    assert(pc[w] != id.0);
                }
                assert(pn.children@[k as int].0 == pc[k as int]);
            }
        }
        proof {
            assert(pc[k as int] == id.0);
            let ci = child_index(pc, id.0);
            assert(pc[ci] == id.0);
            assert(ci == k);
        }
        match self.nodes[pi].as_mut() {
            Some(pn) => {
                pn.children.remove(k);
            },
            None => {},
        }
        let ghost s1 = self.nodes@;
        proof {
            let pn1 = s1[pi as int]->0;
            assert(s1 == s0.update(pi as int, Some(pn1)));
            assert(id_seq(pn1.children@) =~= pc.remove(k as int));
            lemma_slot_write(s0, pi as int, pn1);
            assert forall|q: u64| #[trigger] sub.contains(q) implies present(s1, q as int) by {
                assert(m.contains_key(q));
            }
        }
        // Clear the slots of the removed nodes.
        let mut j: usize = 0;
        while j < gone.len()
            invariant
                j <= gone@.len(),
                id_seq(gone@).no_duplicates(),
                id_seq(gone@).to_set() == sub,
                forall|q: u64| #[trigger] sub.contains(q) ==> present(s1, q as int),
                s1.len() == s0.len(),
                s0.len() <= u64::MAX,
                self.nodes@.len() == s1.len(),
                forall|q: int| 0 <= q < s1.len() ==> (#[trigger] present(self.nodes@, q)
                    <==> (present(s1, q) && !id_seq(gone@.take(j as int)).contains(q as u64))),
                forall|q: int| #[trigger] present(self.nodes@, q) ==> self.nodes@[q] == s1[q],
                self.live == count_present(self.nodes@),
                dirty_ok(self.dirty_ids@, self.dirty_seen@),
                self.dirty_seen@ == v0.dirty.union(id_seq(gone@.take(j as int)).to_set()),
                self.epoch == v0.epoch,
                self.force_full_scan == v0.force_full_scan,
                self.semantics@ == old(self).semantics@,
                self.semantics_enabled == v0.semantics_enabled,
            decreases gone@.len() - j,
        {
            let r = gone[j];
            let total = self.nodes.len();
            proof {
                assert(id_seq(gone@)[j as int] == r.0);
                assert(sub.contains(r.0));
                assert(present(s1, r.0 as int));
                assert((r.0 as int) < total);
            }
            let ri = r.0 as usize;
            let ghost before = self.nodes@;
            proof {
                assert(!id_seq(gone@.take(j as int)).contains(r.0)) by {
                    if id_seq(gone@.take(j as int)).contains(r.0) {
                        let ids_j = id_seq(gone@.take(j as int));
                        let w = choose|w: int| 0 <= w < ids_j.len() && ids_j[w] == r.0;
                        assert(id_seq(gone@)[w] == r.0);
                    }
                }
                assert(present(before, ri as int));
                lemma_count_update(before, ri as int, None);
            }
            let mut empty: Option<SceneNode> = None;
            self.nodes.set_and_swap(ri, &mut empty);
            self.live = self.live - 1;
            self.mark_dirty(r);
            j += 1;
            proof {
                let after = self.nodes@;
                assert(after =~= before.update(ri as int, None));
                assert forall|x: int| #[trigger] present(after, x) implies after[x] == s1[x] by {
                    assert(x != ri as int);
                    assert(present(before, x));
                }
                let cur_ids = id_seq(gone@.take(j as int));
                let prev_ids = id_seq(gone@.take(j - 1));
                assert(id_seq(gone@.take(j as int)) =~= id_seq(gone@.take(j - 1)).push(r.0));
                id_seq(gone@.take(j - 1)).lemma_push_to_set_commute(r.0);
                assert(self.dirty_seen@ =~= v0.dirty.union(id_seq(gone@.take(j as int)).to_set()));
                assert forall|q: int| 0 <= q < s1.len() implies (#[trigger] present(self.nodes@, q)
                    <==> (present(s1, q) && !id_seq(gone@.take(j as int)).contains(q as u64))) by {
                    if q == ri as int {
                        assert(cur_ids[j - 1] == r.0);
                        assert(!present(self.nodes@, q));
                    } else {
                        assert((q as u64) != r.0);
                        assert(present(self.nodes@, q) == present(before, q));
                        if cur_ids.contains(q as u64) && !prev_ids.contains(q as u64) {
                            let w = choose|w: int| 0 <= w < cur_ids.len() && cur_ids[w] == q as u64;
                            if w < j - 1 {
                                assert(prev_ids[w] == q as u64);
                            }
                        }
                        if prev_ids.contains(q as u64) {
                            let w = choose|w: int| 0 <= w < prev_ids.len() && prev_ids[w] == q as u64;
                            assert(cur_ids[w] == q as u64);
                        }
                    }
                }
            }
        }
        let ghost s2 = self.nodes@;
        proof {
            assert(gone@.take(j as int) =~= gone@);
            assert forall|q: int| 0 <= q < s1.len() implies (#[trigger] present(s2, q) <==> (present(s1, q) && !sub.contains(q as u64))) by {
                assert(present(s2, q) <==> (present(s1, q) && !id_seq(gone@.take(j as int)).contains(q as u64)));
            }
        }
        // Drop the semantics entries of the removed nodes.
        let ghost sem0 = self.semantics@;
        let mut kept: Vec<(NodeId, SemanticsNode)> = Vec::new();
        let ghost mut src: Seq<int> = Seq::empty();
        let mut q: usize = 0;
        while q < self.semantics.len()
            invariant
                self.nodes@ == s2,
                self.semantics@ == sem0,
                sem_keys_distinct(sem0),
                s2.len() <= u64::MAX,
                q <= sem0.len(),
                sem_keys_distinct(kept@),
                src.len() == kept@.len(),
                forall|t: int| 0 <= t < kept@.len() ==> 0 <= #[trigger] src[t] < q && kept@[t].0 == sem0[src[t]].0
                    && semantics_view(kept@[t].1) == semantics_view(sem0[src[t]].1)
                    && present(s2, sem0[src[t]].0.0 as int),
                forall|i: int| 0 <= i < q && present(s2, (#[trigger] sem0[i]).0.0 as int) ==> sem_has(kept@, sem0[i].0.0),
            decreases sem0.len() - q,
        {
            let key = self.semantics[q].0;
            if self.slot_of(key).is_some() {
                let node = self.semantics[q].1.clone();
                let ghost kb = kept@;
                proof {
                    assert forall|t: int| 0 <= t < kb.len() implies (#[trigger] kb[t]).0 != key by {
                        assert(src[t] != q as int);
                        assert(sem0[src[t]].0 != sem0[q as int].0);
                    }
                }
                kept.push((key, node));
                proof {
                    src = src.push(q as int);
                    let ka = kept@;
                    assert(sem_keys_distinct(ka)) by {
                        assert forall|x: int, y: int| 0 <= x < ka.len() && 0 <= y < ka.len() && x != y implies (#[trigger] ka[x]).0 != (#[trigger] ka[y]).0 by {
                            if x < kb.len() && y < kb.len() {
                                assert(ka[x] == kb[x] && ka[y] == kb[y]);
                            } else if x == kb.len() {
                                assert(ka[y] == kb[y]);
                            } else {
                                assert(ka[x] == kb[x]);
                            }
                        }
                    }
                    assert forall|t: int| 0 <= t < ka.len() implies 0 <= #[trigger] src[t] < q + 1 && ka[t].0 == sem0[src[t]].0
                        && semantics_view(ka[t].1) == semantics_view(sem0[src[t]].1)
                        && present(s2, sem0[src[t]].0.0 as int) by {
                        if t < kb.len() {
                            assert(ka[t] == kb[t]);
                        }
                    }
                    assert forall|i: int| 0 <= i < q + 1 && present(s2, (#[trigger] sem0[i]).0.0 as int) implies sem_has(ka, sem0[i].0.0) by {
                        if i < q {
                            assert(sem_has(kb, sem0[i].0.0));
                            let t = choose|t: int| 0 <= t < kb.len() && (#[trigger] kb[t]).0.0 == sem0[i].0.0;
                            assert(ka[t] == kb[t]);
                        } else {
                            assert(ka[kb.len() as int].0.0 == sem0[i].0.0);
                        }
                    }
                }
            } else {
                proof {
                    assert(!present(s2, key.0 as int));
                }
            }
            q += 1;
        }
        self.semantics = kept;
        self.epoch = self.epoch + 1;
        proof {
            let v1 = self@;
            let pn1 = s1[pi as int]->0;
            assert(v1.nodes =~= removed(v0, id.0).nodes) by {
                assert forall|x: u64| #[trigger] v1.nodes.contains_key(x) == removed(v0, id.0).nodes.contains_key(x) by {
                    if (x as int) < s1.len() {
                        assert(present(s2, x as int) <==> (present(s1, x as int) && !sub.contains(x)));
                        assert(present(s1, x as int) <==> present(s0, x as int));
                    }
                }
                assert forall|x: u64| #[trigger] v1.nodes.contains_key(x) implies v1.nodes[x] == removed(v0, id.0).nodes[x] by {
                    assert(present(s2, x as int));
                    assert(s2[x as int] == s1[x as int]);
                    if x != p.0 {
                        assert(s1[x as int] == s0[x as int]);
                    } else {
                        assert(node_view(pn1) == NodeView { children: pc.remove(child_index(pc, id.0)), ..m[p.0] });
                    }
                }
            }
            let sem1 = self.semantics@;
            assert(sem_map(sem1) =~= v0.semantics.remove_keys(sub)) by {
                assert forall|x: u64| #[trigger] sem_has(sem1, x) == v0.semantics.remove_keys(sub).contains_key(x) by {
                    if sem_has(sem1, x) {
                        let t = choose|t: int| 0 <= t < sem1.len() && (#[trigger] sem1[t]).0.0 == x;
                        let i = src[t];
                        assert(sem0[i].0.0 == x);
                        assert(sem_has(sem0, x));
                        assert(!sub.contains(x));
                    }
                    if v0.semantics.remove_keys(sub).contains_key(x) {
                        assert(sem_has(sem0, x));
                        let i = choose|i: int| 0 <= i < sem0.len() && (#[trigger] sem0[i]).0.0 == x;
                        assert(v0.nodes.contains_key(x));
                        assert(present(s0, x as int));
                        assert(present(s2, sem0[i].0.0 as int));
                    }
                }
                assert forall|x: u64| #[trigger] sem_has(sem1, x) implies sem_map(sem1)[x] == v0.semantics[x] by {
                    let t = choose|t: int| 0 <= t < sem1.len() && (#[trigger] sem1[t]).0.0 == x;
                    let i = src[t];
                    lemma_sem_entry(sem1, t);
                    lemma_sem_entry(sem0, i);
                }
            }
            assert(v1 =~= removed(v0, id.0));
            assert forall|x: int| #[trigger] present(s2, x) implies s2[x]->0.id.0 == x by {
                assert(present(s1, x));
            }
        }
        true
    }

    /// The populated semantics entries (node id, semantics), each node once.
    pub fn semantics_iter(&self) -> (r: &[(NodeId, SemanticsNode)])
        requires
            self.wf(),
        ensures
            sem_keys_distinct(r@),
            sem_map(r@) == self@.semantics,
    {
        self.semantics.as_slice()
    }
}

impl Default for Scene {
    fn default() -> (s: Self)
        ensures
            s.wf(),
            s@.nodes == map![0u64 => root_view()],
            s@.next_id == 1,
            s@.epoch == 0,
            s@.dirty == Set::<u64>::empty(),
            !s@.force_full_scan,
            s@.semantics == Map::<u64, SemanticsView>::empty(),
            !s@.semantics_enabled,
    {
        Scene::new()
    }
}

// ---------------------------------------------------------------------------
// Laws
// ---------------------------------------------------------------------------

/// Ids are never reused: the id the next added node gets belongs to no
/// existing node, and neither does any larger id.
pub proof fn next_id_is_unused(s: &Scene, x: u64)
    requires
        s.wf(),
        x as int >= s@.next_id,
    ensures
        !s@.nodes.contains_key(x),
{
    s.lemma_wf();
}

/// Removing a subtree drops exactly the nodes at or below the removed node:
/// every other node stays.
pub proof fn remove_drops_exactly_the_subtree(v: SceneView, id: u64, x: u64)
    requires
        tree_ok(v),
        id != 0,
        v.nodes.contains_key(id),
    ensures
        removed(v, id).nodes.contains_key(x) == (v.nodes.contains_key(x) && !descends(v.nodes, x, id)),
{
    lemma_remove_keeps_tree(v, id);
}

/// Removing a subtree leaves a consistent tree whose root is still there.
pub proof fn remove_keeps_a_tree(v: SceneView, id: u64)
    requires
        tree_ok(v),
        id != 0,
        v.nodes.contains_key(id),
    ensures
        tree_ok(removed(v, id)),
        removed(v, id).nodes.contains_key(0),
{
    lemma_remove_keeps_tree(v, id);
}

/// A removed subtree leaves no semantics behind.
pub proof fn remove_purges_semantics(v: SceneView, id: u64, x: u64)
    requires
        tree_ok(v),
        id != 0,
        v.nodes.contains_key(id),
        descends(v.nodes, x, id),
    ensures
        !removed(v, id).semantics.contains_key(x),
        removed(v, id).dirty.contains(x) <== v.nodes.contains_key(x),
{
}

} // verus!
