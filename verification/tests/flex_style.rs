use tern::flex_style::{
    layout_style, percent_text, AlignItemsKw, Amount, Extent, FlexDirectionKw, JustifyKw, PositionKw,
};
use tern::scene::{FloatBits, PropMap, PropValue};

fn props(entries: &[(&str, PropValue)]) -> PropMap {
    let mut m = PropMap::new();
    for (k, v) in entries {
        m.insert(k.to_string(), v.clone());
    }
    m
}

fn s(text: &str) -> PropValue {
    PropValue::Str(text.to_string())
}

#[test]
fn empty_props_give_the_defaults() {
    let st = layout_style(&PropMap::new());
    assert_eq!(st.flex_direction, FlexDirectionKw::Row);
    assert_eq!(st.justify_content, None);
    assert_eq!(st.align_items, None);
    assert_eq!(st.position, PositionKw::Relative);
    assert_eq!(st.gap_width, None);
    assert_eq!(st.padding_left, None);
    assert_eq!(st.width, None);
    assert_eq!(st.inset_top, None);
}

#[test]
fn keywords_map_to_their_variants() {
    let st = layout_style(&props(&[
        ("flex_direction", s("column-reverse")),
        ("justify_content", s("space-between")),
        ("align_items", s("baseline")),
        ("position", s("absolute")),
    ]));
    assert_eq!(st.flex_direction, FlexDirectionKw::ColumnReverse);
    assert_eq!(st.justify_content, Some(JustifyKw::SpaceBetween));
    assert_eq!(st.align_items, Some(AlignItemsKw::Baseline));
    assert_eq!(st.position, PositionKw::Absolute);
    let st = layout_style(&props(&[("flex_direction", s("sideways")), ("justify_content", PropValue::Int(3))]));
    assert_eq!(st.flex_direction, FlexDirectionKw::Row);
    assert_eq!(st.justify_content, None);
}

#[test]
fn per_side_spacing_overrides_per_axis_which_overrides_uniform() {
    let st = layout_style(&props(&[
        ("padding", PropValue::Int(1)),
        ("padding_x", PropValue::Int(2)),
        ("padding_left", PropValue::Int(3)),
        ("margin_y", PropValue::Int(4)),
        ("gap", PropValue::Int(2)),
        ("row_gap", PropValue::Int(5)),
    ]));
    assert_eq!(st.padding_top, Some(Amount::Cells(1)));
    assert_eq!(st.padding_right, Some(Amount::Cells(2)));
    assert_eq!(st.padding_bottom, Some(Amount::Cells(1)));
    assert_eq!(st.padding_left, Some(Amount::Cells(3)));
    assert_eq!(st.margin_top, Some(Amount::Cells(4)));
    assert_eq!(st.margin_left, None);
    assert_eq!(st.gap_width, Some(Amount::Cells(2)));
    assert_eq!(st.gap_height, Some(Amount::Cells(5)));
}

#[test]
fn sizes_are_lengths_or_percent_texts() {
    let half = 0.5f64.to_bits();
    let st = layout_style(&props(&[
        ("width", s("50%")),
        ("height", s("50")),
        ("min_width", PropValue::Int(7)),
        ("max_height", PropValue::Float(FloatBits(half))),
        ("flex_basis", PropValue::Int(12)),
        ("top", PropValue::Int(-1)),
    ]));
    assert_eq!(st.width, Some(Extent::Percent("50".to_string())));
    assert_eq!(st.height, None);
    assert_eq!(st.min_width, Some(Extent::Length(Amount::Cells(7))));
    assert_eq!(st.max_height, Some(Extent::Length(Amount::Bits(half))));
    assert_eq!(st.flex_basis, Some(Amount::Cells(12)));
    assert_eq!(st.inset_top, Some(Amount::Cells(-1)));
}

#[test]
fn percent_text_strips_one_trailing_percent() {
    assert_eq!(percent_text("12.5%"), Some("12.5".to_string()));
    assert_eq!(percent_text("%"), Some(String::new()));
    assert_eq!(percent_text("50"), None);
    assert_eq!(percent_text(""), None);
    assert_eq!(percent_text("5%%"), Some("5%".to_string()));
}
