use tern::color::Color;
use tern::protocol::{
    apply_modifier, apply_style_key, parse_border_style, parse_color, props_to_style_map, JsonScalar,
};
use tern::scene::{FloatBits, PropMap, PropValue};
use tern::style::{BorderStyle, Modifiers, Style};

fn text(s: &str) -> JsonScalar {
    JsonScalar::Text(s.to_string())
}

/// The entries of a JSON props object: each key with what the style keys
/// read of its value and the value's prop form.
fn map(json: &str) -> Vec<(String, JsonScalar, Option<PropValue>)> {
    let m: serde_json::Map<String, serde_json::Value> = serde_json::from_str(json).expect("test JSON parses");
    m.into_iter()
        .map(|(k, v)| {
            let sc = match &v {
                serde_json::Value::String(s) => JsonScalar::Text(s.clone()),
                serde_json::Value::Bool(b) => JsonScalar::Flag(*b),
                _ => JsonScalar::Other,
            };
            let pv = match v {
                serde_json::Value::String(s) => Some(PropValue::Str(s)),
                serde_json::Value::Number(n) => match n.as_i64() {
                    Some(i) => Some(PropValue::Int(i)),
                    None => Some(PropValue::Float(FloatBits(n.as_f64().unwrap_or(0.0).to_bits()))),
                },
                serde_json::Value::Bool(b) => Some(PropValue::Bool(b)),
                _ => None,
            };
            (k, sc, pv)
        })
        .collect()
}

fn split(json: &str) -> (Style, PropMap) {
    props_to_style_map(&map(json))
}

#[test]
fn color_and_border_parsing() {
    assert_eq!(parse_color("#abcdef"), Color::Rgb(0xab, 0xcd, 0xef));
    assert_eq!(parse_color("indexed:200"), Color::Indexed(200));
    assert_eq!(parse_color("default"), Color::Default);
    assert_eq!(parse_color("bogus"), Color::Default);
    assert_eq!(parse_color("#12345"), Color::Default);
    for (s, b) in [
        ("plain", BorderStyle::Plain),
        ("rounded", BorderStyle::Rounded),
        ("double", BorderStyle::Double),
        ("thick", BorderStyle::Thick),
        ("none", BorderStyle::Borderless),
        ("bogus", BorderStyle::Borderless),
    ] {
        assert_eq!(parse_border_style(s), b, "{s}");
    }
}

#[test]
fn malformed_colors_fall_back_to_default() {
    assert_eq!(parse_color("#gg0000"), Color::Default);
    assert_eq!(parse_color("indexed:256"), Color::Default);
    assert_eq!(parse_color("indexed:"), Color::Default);
    assert_eq!(parse_color("#ABCDEF"), Color::Rgb(0xab, 0xcd, 0xef));
}

#[test]
fn single_key_merge_matches_full_map() {
    let (full_style, _) = split(r##"{"fg":"#00ff00","bold":true}"##);
    let mut merged = Style::new();
    merged = apply_style_key(merged, "fg", &text("#00ff00")).unwrap();
    merged = apply_style_key(merged, "bold", &JsonScalar::Flag(true)).unwrap();
    assert_eq!(merged, full_style);
    // A false modifier clears it.
    let cleared = apply_style_key(merged.clone(), "bold", &JsonScalar::Flag(false)).unwrap();
    assert!(!cleared.modifiers.contains(Modifiers::bold()));
    // Unknown keys fall through as prop keys.
    assert!(apply_style_key(merged, "gap", &JsonScalar::Other).is_none());
}

#[test]
fn style_keys_lift_into_style_and_rest_into_props() {
    let (style, props) = split(
        r##"{"fg":"#ff0000","bg":"indexed:4","bold":true,"dim":false,
            "border_style":"rounded","border_color":"#00ff00",
            "text":"hi","gap":2,"width":10.5}"##,
    );
    assert_eq!(style.fg, Color::Rgb(255, 0, 0));
    assert_eq!(style.bg, Color::Indexed(4));
    assert!(style.modifiers.contains(Modifiers::bold()));
    assert!(!style.modifiers.contains(Modifiers::dim()));
    assert_eq!(style.border_style, BorderStyle::Rounded);
    assert_eq!(style.border_color, Color::Rgb(0, 255, 0));
    assert_eq!(props.get("text"), Some(&PropValue::Str("hi".into())));
    assert_eq!(props.get("gap"), Some(&PropValue::Int(2)));
    assert_eq!(props.get("width"), Some(&PropValue::Float(FloatBits(10.5f64.to_bits()))));
    assert!(!props.contains_key("fg"));
}

#[test]
fn non_scalar_prop_values_are_dropped() {
    let (_, props) = split(r#"{"obj":{"a":1},"arr":[1],"null":null}"#);
    assert!(props.is_empty());
}

#[test]
fn href_absent_or_non_string_leaves_hyperlink_none() {
    // No href key: the style carries no hyperlink.
    let (plain, _) = split(r##"{"fg":"#ff0000"}"##);
    assert!(plain.hyperlink.is_none());

    // A non-string href value is dropped, exactly like other style keys.
    let (non_string, _) = split(r#"{"href":42}"#);
    assert!(non_string.hyperlink.is_none());
}

#[test]
fn single_key_href_merge_matches_full_map() {
    let (full_style, _) = split(r##"{"href":"https://example.com"}"##);
    let mut merged = Style::new();
    merged = apply_style_key(merged, "href", &text("https://example.com")).unwrap();
    assert_eq!(merged, full_style);
    assert_eq!(merged.hyperlink.as_deref(), Some("https://example.com"));
}

#[test]
fn style_keys_lift_into_style() {
    let mut style = Style::new();
    for (key, value) in [
        ("fg", text("#ff0000")),
        ("bg", text("indexed:4")),
        ("bold", JsonScalar::Flag(true)),
        ("dim", JsonScalar::Flag(false)),
        ("border_style", text("rounded")),
        ("border_color", text("#00ff00")),
    ] {
        style = apply_style_key(style, key, &value).expect("a style key");
    }
    assert_eq!(style.fg, Color::Rgb(255, 0, 0));
    assert_eq!(style.bg, Color::Indexed(4));
    assert!(style.modifiers.contains(Modifiers::bold()));
    assert!(!style.modifiers.contains(Modifiers::dim()));
    assert_eq!(style.border_style, BorderStyle::Rounded);
    assert_eq!(style.border_color, Color::Rgb(0, 255, 0));
}

#[test]
fn href_lifts_into_style_hyperlink() {
    let (style, props) = split(r##"{"href":"https://example.com","fg":"#ff0000"}"##);
    assert_eq!(style.hyperlink.as_deref(), Some("https://example.com"));
    assert_eq!(style.fg, Color::Rgb(255, 0, 0), "other keys still lift");
    assert!(!props.contains_key("href"), "href is a style key, not a prop");
}

#[test]
fn non_string_values_leave_string_keys_untouched() {
    let s = apply_style_key(Style::new(), "href", &JsonScalar::Other).unwrap();
    assert!(s.hyperlink.is_none());
    let s = apply_style_key(Style::new(), "fg", &JsonScalar::Flag(true)).unwrap();
    assert_eq!(s, Style::new());
}

#[test]
fn applying_a_style_key_twice_is_like_once() {
    let once = apply_style_key(Style::new(), "italic", &JsonScalar::Flag(true)).unwrap();
    let twice = apply_style_key(once.clone(), "italic", &JsonScalar::Flag(true)).unwrap();
    assert_eq!(once, twice);
}

#[test]
fn modifiers_set_only_on_true() {
    let base = Style::new().add_modifier(Modifiers::hidden());
    let on = apply_modifier(base.clone(), &JsonScalar::Flag(true), Modifiers::blink());
    assert!(on.modifiers.contains(Modifiers::blink()));
    assert!(on.modifiers.contains(Modifiers::hidden()));
    let off = apply_modifier(base, &text("yes"), Modifiers::hidden());
    assert!(off.modifiers.is_empty());
}
