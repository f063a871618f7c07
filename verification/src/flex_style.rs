//! The flex style a node's layout props ask for: keywords mapped to their
//! variants, lengths read as numbers or `"N%"` texts, and the per-side
//! cascades resolved. The layout engine turns it into its own style type
//! one field for one.

use vstd::prelude::*;

use crate::scene::{PropMap, PropValue, PropValueView};
use crate::text::{chars_of, push_char, str_eq};

verus! {

/// The main axis of a flex container.
#[derive(Debug, Clone, Copy, PartialEq, Eq, Structural)]
pub enum FlexDirectionKw {
    Row,
    Column,
    RowReverse,
    ColumnReverse,
}

/// How items are packed along the main axis.
#[derive(Debug, Clone, Copy, PartialEq, Eq, Structural)]
pub enum JustifyKw {
    FlexStart,
    FlexEnd,
    Center,
    SpaceBetween,
    SpaceAround,
    SpaceEvenly,
}

/// How items are aligned on the cross axis.
#[derive(Debug, Clone, Copy, PartialEq, Eq, Structural)]
pub enum AlignItemsKw {
    FlexStart,
    FlexEnd,
    Center,
    Baseline,
    Stretch,
}

/// How whole flex lines are packed on the cross axis.
#[derive(Debug, Clone, Copy, PartialEq, Eq, Structural)]
pub enum AlignContentKw {
    FlexStart,
    FlexEnd,
    Center,
    Stretch,
    SpaceBetween,
    SpaceAround,
    SpaceEvenly,
}

/// Whether a node takes part in the flow or is placed by its insets.
#[derive(Debug, Clone, Copy, PartialEq, Eq, Structural)]
pub enum PositionKw {
    Relative,
    Absolute,
}

/// A length in cells as a prop gives it: an integer, or the bits of a float.
#[derive(Debug, Clone, Copy, PartialEq, Eq, Structural)]
pub enum Amount {
    Cells(i64),
    Bits(u64),
}

/// A size prop: a length in cells, or the number text of an `"N%"` string
/// (the percentage of the containing block's size).
#[derive(Debug, Clone, PartialEq, Eq)]
pub enum Extent {
    Length(Amount),
    Percent(String),
}

/// The value of an [`Extent`].
pub enum ExtentView {
    Length(Amount),
    Percent(Seq<char>),
}

impl View for Extent {
    type V = ExtentView;

    open spec fn view(&self) -> ExtentView {
        match self {
            Extent::Length(a) => ExtentView::Length(*a),
            Extent::Percent(t) => ExtentView::Percent(t@),
        }
    }
}

/// The flex style of a node. An absent gap, padding, border or margin is
/// zero; an absent inset, size or flex basis is `auto`; an absent
/// justify / align keyword is the engine's default.
#[derive(Debug, Clone)]
pub struct LayoutStyle {
    pub flex_direction: FlexDirectionKw,
    pub justify_content: Option<JustifyKw>,
    pub align_items: Option<AlignItemsKw>,
    pub align_content: Option<AlignContentKw>,
    /// The main-axis gap of a row (between columns).
    pub gap_width: Option<Amount>,
    /// The cross-axis gap of a row (between lines).
    pub gap_height: Option<Amount>,
    pub padding_top: Option<Amount>,
    pub padding_right: Option<Amount>,
    pub padding_bottom: Option<Amount>,
    pub padding_left: Option<Amount>,
    /// The border width, on every side.
    pub border: Option<Amount>,
    pub margin_top: Option<Amount>,
    pub margin_right: Option<Amount>,
    pub margin_bottom: Option<Amount>,
    pub margin_left: Option<Amount>,
    pub width: Option<Extent>,
    pub height: Option<Extent>,
    pub min_width: Option<Extent>,
    pub min_height: Option<Extent>,
    pub max_width: Option<Extent>,
    pub max_height: Option<Extent>,
    pub flex_basis: Option<Amount>,
    pub position: PositionKw,
    pub inset_top: Option<Amount>,
    pub inset_right: Option<Amount>,
    pub inset_bottom: Option<Amount>,
    pub inset_left: Option<Amount>,
}

/// The value of a [`LayoutStyle`].
pub struct LayoutStyleView {
    pub flex_direction: FlexDirectionKw,
    pub justify_content: Option<JustifyKw>,
    pub align_items: Option<AlignItemsKw>,
    pub align_content: Option<AlignContentKw>,
    pub gap_width: Option<Amount>,
    pub gap_height: Option<Amount>,
    pub padding_top: Option<Amount>,
    pub padding_right: Option<Amount>,
    pub padding_bottom: Option<Amount>,
    pub padding_left: Option<Amount>,
    pub border: Option<Amount>,
    pub margin_top: Option<Amount>,
    pub margin_right: Option<Amount>,
    pub margin_bottom: Option<Amount>,
    pub margin_left: Option<Amount>,
    pub width: Option<ExtentView>,
    pub height: Option<ExtentView>,
    pub min_width: Option<ExtentView>,
    pub min_height: Option<ExtentView>,
    pub max_width: Option<ExtentView>,
    pub max_height: Option<ExtentView>,
    pub flex_basis: Option<Amount>,
    pub position: PositionKw,
    pub inset_top: Option<Amount>,
    pub inset_right: Option<Amount>,
    pub inset_bottom: Option<Amount>,
    pub inset_left: Option<Amount>,
}

/// The view of an optional extent.
pub open spec fn extent_opt_view(e: Option<Extent>) -> Option<ExtentView> {
    match e {
        Some(x) => Some(x@),
        None => None,
    }
}

impl View for LayoutStyle {
    type V = LayoutStyleView;

    open spec fn view(&self) -> LayoutStyleView {
        LayoutStyleView {
            flex_direction: self.flex_direction,
            justify_content: self.justify_content,
            align_items: self.align_items,
            align_content: self.align_content,
            gap_width: self.gap_width,
            gap_height: self.gap_height,
            padding_top: self.padding_top,
            padding_right: self.padding_right,
            padding_bottom: self.padding_bottom,
            padding_left: self.padding_left,
            border: self.border,
            margin_top: self.margin_top,
            margin_right: self.margin_right,
            margin_bottom: self.margin_bottom,
            margin_left: self.margin_left,
            width: extent_opt_view(self.width),
            height: extent_opt_view(self.height),
            min_width: extent_opt_view(self.min_width),
            min_height: extent_opt_view(self.min_height),
            max_width: extent_opt_view(self.max_width),
            max_height: extent_opt_view(self.max_height),
            flex_basis: self.flex_basis,
            position: self.position,
            inset_top: self.inset_top,
            inset_right: self.inset_right,
            inset_bottom: self.inset_bottom,
            inset_left: self.inset_left,
        }
    }
}

/// The string stored under `key`, if that prop is a string.
pub open spec fn str_prop_spec(m: Map<Seq<char>, PropValueView>, key: Seq<char>) -> Option<Seq<char>> {
    if m.contains_key(key) {
        match m[key] {
            PropValueView::Str(s) => Some(s),
            _ => None,
        }
    } else {
        None
    }
}

/// The number stored under `key`, if that prop is an integer or a float.
pub open spec fn number_prop_spec(m: Map<Seq<char>, PropValueView>, key: Seq<char>) -> Option<Amount> {
    if m.contains_key(key) {
        match m[key] {
            PropValueView::Int(i) => Some(Amount::Cells(i)),
            PropValueView::Float(b) => Some(Amount::Bits(b)),
            _ => None,
        }
    } else {
        None
    }
}

/// The number text of an `"N%"` string: everything before its one
/// trailing `%`.
pub open spec fn percent_text_spec(s: Seq<char>) -> Option<Seq<char>> {
    if s.len() > 0 && s.last() == '%' {
        Some(s.drop_last())
    } else {
        None
    }
}

/// The size stored under `key`: a number is a length, an `"N%"` string a
/// percentage; anything else is no size.
pub open spec fn extent_prop_spec(m: Map<Seq<char>, PropValueView>, key: Seq<char>) -> Option<ExtentView> {
    if m.contains_key(key) {
        match m[key] {
            PropValueView::Int(i) => Some(ExtentView::Length(Amount::Cells(i))),
            PropValueView::Float(b) => Some(ExtentView::Length(Amount::Bits(b))),
            PropValueView::Str(s) => match percent_text_spec(s) {
                Some(t) => Some(ExtentView::Percent(t)),
                None => None,
            },
            PropValueView::Bool(_) => None,
        }
    } else {
        None
    }
}

/// The first of three optional amounts that is present.
pub open spec fn first_of(a: Option<Amount>, b: Option<Amount>, c: Option<Amount>) -> Option<Amount> {
    if a is Some {
        a
    } else if b is Some {
        b
    } else {
        c
    }
}

pub open spec fn direction_spec(m: Map<Seq<char>, PropValueView>) -> FlexDirectionKw {
    match str_prop_spec(m, "flex_direction"@) {
        Some(s) => if s == "column"@ {
            FlexDirectionKw::Column
        } else if s == "row-reverse"@ {
            FlexDirectionKw::RowReverse
        } else if s == "column-reverse"@ {
            FlexDirectionKw::ColumnReverse
        } else {
            FlexDirectionKw::Row
        },
        None => FlexDirectionKw::Row,
    }
}

pub open spec fn justify_spec(m: Map<Seq<char>, PropValueView>) -> Option<JustifyKw> {
    match str_prop_spec(m, "justify_content"@) {
        Some(s) => if s == "flex-start"@ {
            Some(JustifyKw::FlexStart)
        } else if s == "flex-end"@ {
            Some(JustifyKw::FlexEnd)
        } else if s == "center"@ {
            Some(JustifyKw::Center)
        } else if s == "space-between"@ {
            Some(JustifyKw::SpaceBetween)
        } else if s == "space-around"@ {
            Some(JustifyKw::SpaceAround)
        } else if s == "space-evenly"@ {
            Some(JustifyKw::SpaceEvenly)
        } else {
            None
        },
        None => None,
    }
}

pub open spec fn align_items_spec(m: Map<Seq<char>, PropValueView>) -> Option<AlignItemsKw> {
    match str_prop_spec(m, "align_items"@) {
        Some(s) => if s == "flex-start"@ {
            Some(AlignItemsKw::FlexStart)
        } else if s == "flex-end"@ {
            Some(AlignItemsKw::FlexEnd)
        } else if s == "center"@ {
            Some(AlignItemsKw::Center)
        } else if s == "baseline"@ {
            Some(AlignItemsKw::Baseline)
        } else if s == "stretch"@ {
            Some(AlignItemsKw::Stretch)
        } else {
            None
        },
        None => None,
    }
}

pub open spec fn align_content_spec(m: Map<Seq<char>, PropValueView>) -> Option<AlignContentKw> {
    match str_prop_spec(m, "align_content"@) {
        Some(s) => if s == "flex-start"@ {
            Some(AlignContentKw::FlexStart)
        } else if s == "flex-end"@ {
            Some(AlignContentKw::FlexEnd)
        } else if s == "center"@ {
            Some(AlignContentKw::Center)
        } else if s == "stretch"@ {
            Some(AlignContentKw::Stretch)
        } else if s == "space-between"@ {
            Some(AlignContentKw::SpaceBetween)
        } else if s == "space-around"@ {
            Some(AlignContentKw::SpaceAround)
        } else if s == "space-evenly"@ {
            Some(AlignContentKw::SpaceEvenly)
        } else {
            None
        },
        None => None,
    }
}

pub open spec fn position_spec(m: Map<Seq<char>, PropValueView>) -> PositionKw {
    match str_prop_spec(m, "position"@) {
        Some(s) => if s == "absolute"@ { PositionKw::Absolute } else { PositionKw::Relative },
        None => PositionKw::Relative,
    }
}

/// The flex style the props ask for. A per-axis gap overrides the uniform
/// `gap` on its axis; a per-side padding or margin overrides the per-axis
/// one, which overrides the uniform one.
pub open spec fn layout_style_spec(m: Map<Seq<char>, PropValueView>) -> LayoutStyleView {
    let n = |k: Seq<char>| number_prop_spec(m, k);
    LayoutStyleView {
        flex_direction: direction_spec(m),
        justify_content: justify_spec(m),
        align_items: align_items_spec(m),
        align_content: align_content_spec(m),
        gap_width: first_of(n("column_gap"@), n("gap"@), None),
        gap_height: first_of(n("row_gap"@), n("gap"@), None),
        padding_top: first_of(n("padding_top"@), n("padding_y"@), n("padding"@)),
        padding_right: first_of(n("padding_right"@), n("padding_x"@), n("padding"@)),
        padding_bottom: first_of(n("padding_bottom"@), n("padding_y"@), n("padding"@)),
        padding_left: first_of(n("padding_left"@), n("padding_x"@), n("padding"@)),
        border: n("border"@),
        margin_top: first_of(n("margin_top"@), n("margin_y"@), n("margin"@)),
        margin_right: first_of(n("margin_right"@), n("margin_x"@), n("margin"@)),
        margin_bottom: first_of(n("margin_bottom"@), n("margin_y"@), n("margin"@)),
        margin_left: first_of(n("margin_left"@), n("margin_x"@), n("margin"@)),
        width: extent_prop_spec(m, "width"@),
        height: extent_prop_spec(m, "height"@),
        min_width: extent_prop_spec(m, "min_width"@),
        min_height: extent_prop_spec(m, "min_height"@),
        max_width: extent_prop_spec(m, "max_width"@),
        max_height: extent_prop_spec(m, "max_height"@),
        flex_basis: n("flex_basis"@),
        position: position_spec(m),
        inset_top: n("top"@),
        inset_right: n("right"@),
        inset_bottom: n("bottom"@),
        inset_left: n("left"@),
    }
}

/// The string prop under `key`.
fn str_prop<'a>(props: &'a PropMap, key: &str) -> (r: Option<&'a String>)
    ensures
        match r {
            Some(s) => str_prop_spec(props@, key@) == Some(s@),
            None => str_prop_spec(props@, key@) is None,
        },
{
    match props.get(key) {
        Some(PropValue::Str(s)) => Some(s),
        _ => None,
    }
}

/// The number prop under `key`.
pub fn number_prop(props: &PropMap, key: &str) -> (r: Option<Amount>)
    ensures
        r == number_prop_spec(props@, key@),
{
    match props.get(key) {
        Some(PropValue::Int(i)) => Some(Amount::Cells(*i)),
        Some(PropValue::Float(f)) => Some(Amount::Bits(f.0)),
        _ => None,
    }
}

/// The number text of an `"N%"` string (see [`percent_text_spec`]).
pub fn percent_text(s: &str) -> (r: Option<String>)
    ensures
        match r {
            Some(t) => percent_text_spec(s@) == Some(t@),
            None => percent_text_spec(s@) is None,
        },
{
    let cs = chars_of(s);
    let n = cs.len();
    if n == 0 || cs[n - 1] != '%' {
        return None;
    }
    let mut t = String::new();
    let mut i: usize = 0;
    while i < n - 1
        invariant
            n == cs@.len(),
            n > 0,
            cs@ == s@,
            i <= n - 1,
            t@ == cs@.take(i as int),
        decreases n - 1 - i,
    {
        push_char(&mut t, cs[i]);
        i += 1;
        assert(t@ =~= cs@.take(i as int));
    }
    assert(cs@.take(n - 1) =~= s@.drop_last());
    Some(t)
}

/// The size prop under `key` (see [`extent_prop_spec`]).
pub fn extent_prop(props: &PropMap, key: &str) -> (r: Option<Extent>)
    ensures
        extent_opt_view(r) == extent_prop_spec(props@, key@),
{
    match props.get(key) {
        Some(PropValue::Int(i)) => Some(Extent::Length(Amount::Cells(*i))),
        Some(PropValue::Float(f)) => Some(Extent::Length(Amount::Bits(f.0))),
        Some(PropValue::Str(s)) => match percent_text(s.as_str()) {
            Some(t) => Some(Extent::Percent(t)),
            None => None,
        },
        _ => None,
    }
}

/// The first of three optional amounts that is present.
fn first(a: Option<Amount>, b: Option<Amount>, c: Option<Amount>) -> (r: Option<Amount>)
    ensures
        r == first_of(a, b, c),
{
    if a.is_some() {
        a
    } else if b.is_some() {
        b
    } else {
        c
    }
}

fn direction(props: &PropMap) -> (r: FlexDirectionKw)
    ensures
        r == direction_spec(props@),
{
    match str_prop(props, "flex_direction") {
        Some(s) => if str_eq(s.as_str(), "column") {
            FlexDirectionKw::Column
        } else if str_eq(s.as_str(), "row-reverse") {
            FlexDirectionKw::RowReverse
        } else if str_eq(s.as_str(), "column-reverse") {
            FlexDirectionKw::ColumnReverse
        } else {
            FlexDirectionKw::Row
        },
        None => FlexDirectionKw::Row,
    }
}

fn justify(props: &PropMap) -> (r: Option<JustifyKw>)
    ensures
        r == justify_spec(props@),
{
    match str_prop(props, "justify_content") {
        Some(s) => if str_eq(s.as_str(), "flex-start") {
            Some(JustifyKw::FlexStart)
        } else if str_eq(s.as_str(), "flex-end") {
            Some(JustifyKw::FlexEnd)
        } else if str_eq(s.as_str(), "center") {
            Some(JustifyKw::Center)
        } else if str_eq(s.as_str(), "space-between") {
            Some(JustifyKw::SpaceBetween)
        } else if str_eq(s.as_str(), "space-around") {
            Some(JustifyKw::SpaceAround)
        } else if str_eq(s.as_str(), "space-evenly") {
            Some(JustifyKw::SpaceEvenly)
        } else {
            None
        },
        None => None,
    }
}

fn align_items(props: &PropMap) -> (r: Option<AlignItemsKw>)
    ensures
        r == align_items_spec(props@),
{
    match str_prop(props, "align_items") {
        Some(s) => if str_eq(s.as_str(), "flex-start") {
            Some(AlignItemsKw::FlexStart)
        } else if str_eq(s.as_str(), "flex-end") {
            Some(AlignItemsKw::FlexEnd)
        } else if str_eq(s.as_str(), "center") {
            Some(AlignItemsKw::Center)
        } else if str_eq(s.as_str(), "baseline") {
            Some(AlignItemsKw::Baseline)
        } else if str_eq(s.as_str(), "stretch") {
            Some(AlignItemsKw::Stretch)
        } else {
            None
        },
        None => None,
    }
}

fn align_content(props: &PropMap) -> (r: Option<AlignContentKw>)
    ensures
        r == align_content_spec(props@),
{
    match str_prop(props, "align_content") {
        Some(s) => if str_eq(s.as_str(), "flex-start") {
            Some(AlignContentKw::FlexStart)
        } else if str_eq(s.as_str(), "flex-end") {
            Some(AlignContentKw::FlexEnd)
        } else if str_eq(s.as_str(), "center") {
            Some(AlignContentKw::Center)
        } else if str_eq(s.as_str(), "stretch") {
            Some(AlignContentKw::Stretch)
        } else if str_eq(s.as_str(), "space-between") {
            Some(AlignContentKw::SpaceBetween)
        } else if str_eq(s.as_str(), "space-around") {
            Some(AlignContentKw::SpaceAround)
        } else if str_eq(s.as_str(), "space-evenly") {
            Some(AlignContentKw::SpaceEvenly)
        } else {
            None
        },
        None => None,
    }
}

fn position(props: &PropMap) -> (r: PositionKw)
    ensures
        r == position_spec(props@),
{
    match str_prop(props, "position") {
        Some(s) => if str_eq(s.as_str(), "absolute") { PositionKw::Absolute } else { PositionKw::Relative },
        None => PositionKw::Relative,
    }
}

/// Map a node's layout props onto its flex style (see
/// [`layout_style_spec`]).
pub fn layout_style(props: &PropMap) -> (s: LayoutStyle)
    ensures
        s@ == layout_style_spec(props@),
{
    let gap = number_prop(props, "gap");
    let padding = number_prop(props, "padding");
    let padding_x = number_prop(props, "padding_x");
    let padding_y = number_prop(props, "padding_y");
    let margin = number_prop(props, "margin");
    let margin_x = number_prop(props, "margin_x");
    let margin_y = number_prop(props, "margin_y");
    LayoutStyle {
        flex_direction: direction(props),
        justify_content: justify(props),
        align_items: align_items(props),
        align_content: align_content(props),
        gap_width: first(number_prop(props, "column_gap"), gap, None),
        gap_height: first(number_prop(props, "row_gap"), gap, None),
        padding_top: first(number_prop(props, "padding_top"), padding_y, padding),
        padding_right: first(number_prop(props, "padding_right"), padding_x, padding),
        padding_bottom: first(number_prop(props, "padding_bottom"), padding_y, padding),
        padding_left: first(number_prop(props, "padding_left"), padding_x, padding),
        border: number_prop(props, "border"),
        margin_top: first(number_prop(props, "margin_top"), margin_y, margin),
        margin_right: first(number_prop(props, "margin_right"), margin_x, margin),
        margin_bottom: first(number_prop(props, "margin_bottom"), margin_y, margin),
        margin_left: first(number_prop(props, "margin_left"), margin_x, margin),
        width: extent_prop(props, "width"),
        height: extent_prop(props, "height"),
        min_width: extent_prop(props, "min_width"),
        min_height: extent_prop(props, "min_height"),
        max_width: extent_prop(props, "max_width"),
        max_height: extent_prop(props, "max_height"),
        flex_basis: number_prop(props, "flex_basis"),
        position: position(props),
        inset_top: number_prop(props, "top"),
        inset_right: number_prop(props, "right"),
        inset_bottom: number_prop(props, "bottom"),
        inset_left: number_prop(props, "left"),
    }
}

} // verus!
