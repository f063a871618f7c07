//! The style half of the JSON-prop protocol: how the style keys of a JS
//! props object (`fg`, `bg`, `border_style`, `border_color`, `href`, and the
//! modifier flags) apply to a style.

use vstd::prelude::*;

use crate::color::Color;
use crate::probe::{all_digits, digits_value, hex_val};
use crate::scene::{PropMap, PropValue, PropValueView};
use crate::style::{BorderStyle, Modifiers, Style, StyleView, plain_style};
use crate::text::{chars_of, str_eq, string_of_range};

verus! {

broadcast use vstd::string::group_string_axioms;

/// The JSON value of a style key, as far as the style keys read it: a
/// string, a boolean, or anything else.
#[derive(Debug)]
pub enum JsonScalar {
    /// A JSON string.
    Text(String),
    /// A JSON boolean.
    Flag(bool),
    /// Any other JSON value (number, null, array, object).
    Other,
}

/// The value of a [`JsonScalar`].
pub enum JsonScalarView {
    Text(Seq<char>),
    Flag(bool),
    Other,
}

impl View for JsonScalar {
    type V = JsonScalarView;

    open spec fn view(&self) -> JsonScalarView {
        match self {
            JsonScalar::Text(s) => JsonScalarView::Text(s@),
            JsonScalar::Flag(b) => JsonScalarView::Flag(*b),
            JsonScalar::Other => JsonScalarView::Other,
        }
    }
}

// ---------------------------------------------------------------------------
// Colors and borders
// ---------------------------------------------------------------------------

/// std's radix-16 `u8` parse of a two-character piece: an optional `+` and
/// one hex digit, or two hex digits.
pub open spec fn hex_byte_spec(p: Seq<char>) -> Option<u8> {
    if p.len() != 2 {
        None
    } else if p[0] == '+' {
        match hex_val(p[1]) { Some(v) => Some(v), None => None }
    } else {
        match (hex_val(p[0]), hex_val(p[1])) {
            (Some(a), Some(b)) => Some((a * 16 + b) as u8),
            _ => None,
        }
    }
}

/// std's decimal `u8` parse: an optional `+`, then one or more digits, with
/// a value below 256.
pub open spec fn dec_u8_spec(s: Seq<char>) -> Option<u8> {
    let d = if s.len() > 0 && s[0] == '+' { s.skip(1) } else { s };
    if d.len() > 0 && all_digits(d) && digits_value(d) <= 255 {
        Some(digits_value(d) as u8)
    } else {
        None
    }
}

/// Whether every character is ASCII.
pub open spec fn all_ascii_chars(s: Seq<char>) -> bool {
    forall|i: int| 0 <= i < s.len() ==> (#[trigger] s[i] as u32) < 0x80
}

/// The color a color string names: `"default"`; `"#rrggbb"` (six ASCII
/// characters, each pair a radix-16 byte) as truecolor; `"indexed:<n>"` as
/// a palette index; anything else the default color.
pub open spec fn color_spec(s: Seq<char>) -> Color {
    if s == "default"@ {
        Color::Default
    } else {
        let rgb = if s.len() > 0 && s[0] == '#' && s.len() == 7 && all_ascii_chars(s.skip(1)) {
            match (hex_byte_spec(s.subrange(1, 3)), hex_byte_spec(s.subrange(3, 5)), hex_byte_spec(s.subrange(5, 7))) {
                (Some(r), Some(g), Some(b)) => Some(Color::Rgb(r, g, b)),
                _ => None,
            }
        } else {
            None
        };
        match rgb {
            Some(c) => c,
            None => if s.len() >= 8 && s.take(8) == "indexed:"@ {
                match dec_u8_spec(s.skip(8)) {
                    Some(n) => Color::Indexed(n),
                    None => Color::Default,
                }
            } else {
                Color::Default
            },
        }
    }
}

/// The UTF-8 length of the text after a leading `#`.
pub open spec fn hex_part_bytes(s: Seq<char>) -> int {
    crate::highlight::byte_len(s.skip(1))
}

/// The color strings the parser cannot slice: `#` followed by six bytes of
/// UTF-8 whose 2-byte pieces split a character.
pub open spec fn color_unsliceable(s: Seq<char>) -> bool {
    s.len() > 0 && s[0] == '#' && hex_part_bytes(s) == 6
        && !(crate::highlight::is_char_offset(s.skip(1), 2) && crate::highlight::is_char_offset(s.skip(1), 4))
}

fn hex_byte(p0: char, p1: char) -> (r: Option<u8>)
    ensures
        r == hex_byte_spec(seq![p0, p1]),
{
    if p0 == '+' {
        match crate::probe::hex_digit(p1) {
            Ok(v) => Some(v),
            Err(()) => None,
        }
    } else {
        match (crate::probe::hex_digit(p0), crate::probe::hex_digit(p1)) {
            (Ok(a), Ok(b)) => Some(a * 16 + b),
            _ => None,
        }
    }
}

fn dec_u8(s: &Vec<char>) -> (r: Option<u8>)
    ensures
        r == dec_u8_spec(s@),
{
    let ghost d = if s@.len() > 0 && s@[0] == '+' { s@.skip(1) } else { s@ };
    match crate::probe::parse_u16(s) {
        Some(v) => {
            proof { crate::probe::lemma_digits_nonneg(d); }
            assert(v as int == digits_value(d));
            if v <= 255 {
                assert(v as u8 as int == digits_value(d));
                Some(v as u8)
            } else {
                None
            }
        },
        None => {
            proof {
                if d.len() > 0 && all_digits(d) {
                    crate::probe::lemma_digits_nonneg(d);
                }
            }
            None
        },
    }
}

/// Parse a color string (see [`color_spec`]).
pub fn parse_color(s: &str) -> (c: Color)
    requires
        !color_unsliceable(s@),
    ensures
        c == color_spec(s@),
{
    if str_eq(s, "default") {
        return Color::Default;
    }
    let cs = chars_of(s);
    let n = cs.len();
    if n == 7 && cs[0] == '#' {
        let mut ascii = true;
        let mut i: usize = 1;
        while i < 7
            invariant
                1 <= i <= 7,
                n == 7,
                cs@.len() == 7,
                ascii == (forall|k: int| 1 <= k < i ==> (#[trigger] cs@[k] as u32) < 0x80),
            decreases 7 - i,
        {
            if (cs[i] as u32) >= 0x80 {
                ascii = false;
            }
            i += 1;
        }
        assert(ascii == all_ascii_chars(cs@.skip(1))) by {
            if ascii {
                assert forall|k: int| 0 <= k < cs@.skip(1).len() implies (#[trigger] cs@.skip(1)[k] as u32) < 0x80 by {
                    assert(cs@.skip(1)[k] == cs@[k + 1]);
                }
            } else {
                let k = choose|k: int| 1 <= k < 7 && !((#[trigger] cs@[k] as u32) < 0x80);
                assert(cs@.skip(1)[k - 1] == cs@[k]);
            }
        }
        if ascii {
            let r = hex_byte(cs[1], cs[2]);
            let g = hex_byte(cs[3], cs[4]);
            let b = hex_byte(cs[5], cs[6]);
            assert(cs@.subrange(1, 3) =~= seq![cs@[1], cs@[2]]);
            assert(cs@.subrange(3, 5) =~= seq![cs@[3], cs@[4]]);
            assert(cs@.subrange(5, 7) =~= seq![cs@[5], cs@[6]]);
            match (r, g, b) {
                (Some(r), Some(g), Some(b)) => {
                    return Color::Rgb(r, g, b);
                },
                _ => {},
            }
        }
    }
    if n >= 8 {
        let head = string_of_range(&cs, 0, 8);
        if str_eq(head.as_str(), "indexed:") {
            let rest = crate::text::chars_of(string_of_range(&cs, 8, n).as_str());
            assert(head@ =~= cs@.take(8));
            assert(rest@ =~= cs@.skip(8));
            return match dec_u8(&rest) {
                Some(v) => Color::Indexed(v),
                None => Color::Default,
            };
        }
        assert(head@ =~= cs@.take(8));
    }
    Color::Default
}

/// The border style a keyword names; anything unrecognized: no border.
pub open spec fn border_spec(s: Seq<char>) -> BorderStyle {
    if s == "plain"@ {
        BorderStyle::Plain
    } else if s == "rounded"@ {
        BorderStyle::Rounded
    } else if s == "double"@ {
        BorderStyle::Double
    } else if s == "thick"@ {
        BorderStyle::Thick
    } else {
        BorderStyle::Borderless
    }
}

/// Parse a border style keyword (see [`border_spec`]).
pub fn parse_border_style(s: &str) -> (b: BorderStyle)
    ensures
        b == border_spec(s@),
{
    if str_eq(s, "plain") {
        BorderStyle::Plain
    } else if str_eq(s, "rounded") {
        BorderStyle::Rounded
    } else if str_eq(s, "double") {
        BorderStyle::Double
    } else if str_eq(s, "thick") {
        BorderStyle::Thick
    } else {
        BorderStyle::Borderless
    }
}

// ---------------------------------------------------------------------------
// Style keys
// ---------------------------------------------------------------------------

/// Set (for JSON `true`) or clear (for anything else) a modifier bit.
pub open spec fn modifier_spec(style: StyleView, value: JsonScalarView, bit: u16) -> StyleView {
    if value == JsonScalarView::Flag(true) {
        StyleView { modifiers: style.modifiers | bit, ..style }
    } else {
        StyleView { modifiers: style.modifiers & !bit, ..style }
    }
}

/// The modifier bit a modifier key names.
pub open spec fn modifier_bit(key: Seq<char>) -> Option<u16> {
    if key == "bold"@ { Some(1u16) }
    else if key == "dim"@ { Some(2u16) }
    else if key == "italic"@ { Some(4u16) }
    else if key == "underline"@ { Some(8u16) }
    else if key == "blink"@ { Some(16u16) }
    else if key == "reversed"@ { Some(32u16) }
    else if key == "hidden"@ { Some(64u16) }
    else if key == "strikethrough"@ { Some(128u16) }
    else { None }
}

/// A single style key applied to a style (merge semantics): `Some` when
/// `key` is a style key — a string value sets `border_style`,
/// `border_color`, `fg`, `bg` or `href` (other values leave the style as it
/// was), and a modifier key sets or clears its modifier — `None` when it is
/// a regular prop key.
pub open spec fn style_key_spec(style: StyleView, key: Seq<char>, value: JsonScalarView) -> Option<StyleView> {
    if key == "border_style"@ {
        Some(match value { JsonScalarView::Text(s) => StyleView { border_style: border_spec(s), ..style }, _ => style })
    } else if key == "border_color"@ {
        Some(match value { JsonScalarView::Text(s) => StyleView { border_color: color_spec(s), ..style }, _ => style })
    } else if key == "fg"@ {
        Some(match value { JsonScalarView::Text(s) => StyleView { fg: color_spec(s), ..style }, _ => style })
    } else if key == "bg"@ {
        Some(match value { JsonScalarView::Text(s) => StyleView { bg: color_spec(s), ..style }, _ => style })
    } else if key == "href"@ {
        Some(match value { JsonScalarView::Text(s) => StyleView { hyperlink: Some(s), ..style }, _ => style })
    } else {
        match modifier_bit(key) {
            Some(bit) => Some(modifier_spec(style, value, bit)),
            None => None,
        }
    }
}

/// The color strings of a value can be parsed.
pub open spec fn value_sliceable(value: JsonScalarView) -> bool {
    match value { JsonScalarView::Text(s) => !color_unsliceable(s), _ => true }
}

/// Set or clear `modifier` on `style` from a JSON value: `true` adds it,
/// anything else removes it.
pub fn apply_modifier(style: Style, value: &JsonScalar, modifier: Modifiers) -> (s: Style)
    ensures
        s@ == modifier_spec(style@, value@, modifier@),
{
    let on = match value {
        JsonScalar::Flag(b) => *b,
        _ => false,
    };
    if on {
        style.add_modifier(modifier)
    } else {
        let cleared = style.modifiers.remove(modifier);
        style.modifier(cleared)
    }
}

fn modifier_named(key: &str) -> (m: Option<Modifiers>)
    ensures
        match m { Some(x) => modifier_bit(key@) == Some(x@), None => modifier_bit(key@) is None },
{
    if str_eq(key, "bold") {
        Some(Modifiers::bold())
    } else if str_eq(key, "dim") {
        Some(Modifiers::dim())
    } else if str_eq(key, "italic") {
        Some(Modifiers::italic())
    } else if str_eq(key, "underline") {
        Some(Modifiers::underline())
    } else if str_eq(key, "blink") {
        Some(Modifiers::blink())
    } else if str_eq(key, "reversed") {
        Some(Modifiers::reversed())
    } else if str_eq(key, "hidden") {
        Some(Modifiers::hidden())
    } else if str_eq(key, "strikethrough") {
        Some(Modifiers::strikethrough())
    } else {
        None
    }
}

/// Apply a single style key to `style` (see [`style_key_spec`]).
pub fn apply_style_key(style: Style, key: &str, value: &JsonScalar) -> (r: Option<Style>)
    requires
        (key@ == "border_color"@ || key@ == "fg"@ || key@ == "bg"@) ==> value_sliceable(value@),
    ensures
        match r {
            Some(s) => style_key_spec(style@, key@, value@) == Some(s@),
            None => style_key_spec(style@, key@, value@) is None,
        },
{
    if str_eq(key, "border_style") {
        return Some(match value {
            JsonScalar::Text(s) => style.border_style(parse_border_style(s.as_str())),
            _ => style,
        });
    }
    if str_eq(key, "border_color") {
        return Some(match value {
            JsonScalar::Text(s) => style.border_color(parse_color(s.as_str())),
            _ => style,
        });
    }
    if str_eq(key, "fg") {
        return Some(match value {
            JsonScalar::Text(s) => style.fg(parse_color(s.as_str())),
            _ => style,
        });
    }
    if str_eq(key, "bg") {
        return Some(match value {
            JsonScalar::Text(s) => style.bg(parse_color(s.as_str())),
            _ => style,
        });
    }
    if str_eq(key, "href") {
        return Some(match value {
            JsonScalar::Text(s) => style.hyperlink(Some(s.clone())),
            _ => style,
        });
    }
    match modifier_named(key) {
        Some(m) => Some(apply_modifier(style, value, m)),
        None => None,
    }
}

// ---------------------------------------------------------------------------
// Props objects
// ---------------------------------------------------------------------------

/// The value of one entry of a props object: its key, what the style keys
/// read of its value, and the value's prop form (when it has one).
pub open spec fn entry_view(e: (String, JsonScalar, Option<PropValue>)) -> (Seq<char>, JsonScalarView, Option<PropValueView>) {
    (e.0@, e.1@, match e.2 { Some(p) => Some(p@), None => None })
}

/// A props object split into a style and a prop map, entry by entry from a
/// plain style and an empty map: a style key updates the style; any other
/// key with a prop form is stored; the rest is dropped.
pub open spec fn split_spec(es: Seq<(Seq<char>, JsonScalarView, Option<PropValueView>)>) -> (StyleView, Map<Seq<char>, PropValueView>)
    decreases es.len(),
{
    if es.len() == 0 {
        (plain_style(), Map::empty())
    } else {
        let (st, m) = split_spec(es.drop_last());
        let (k, v, p) = es.last();
        match style_key_spec(st, k, v) {
            Some(st2) => (st2, m),
            None => match p {
                Some(pv) => (st, m.insert(k, pv)),
                None => (st, m),
            },
        }
    }
}

/// The color strings of every style-color entry can be parsed.
pub open spec fn entries_sliceable(es: Seq<(Seq<char>, JsonScalarView, Option<PropValueView>)>) -> bool {
    forall|i: int| 0 <= i < es.len() && (es[i].0 == "border_color"@ || es[i].0 == "fg"@ || es[i].0 == "bg"@)
        ==> #[trigger] value_sliceable(es[i].1)
}

/// Split the entries of a props object into a style and a prop map (see
/// [`split_spec`]).
pub fn props_to_style_map(entries: &[(String, JsonScalar, Option<PropValue>)]) -> (r: (Style, PropMap))
    requires
        entries_sliceable(entries@.map_values(|e: (String, JsonScalar, Option<PropValue>)| entry_view(e))),
    ensures
        (r.0@, r.1@) == split_spec(entries@.map_values(|e: (String, JsonScalar, Option<PropValue>)| entry_view(e))),
{
    let ghost es = entries@.map_values(|e: (String, JsonScalar, Option<PropValue>)| entry_view(e));
    let mut style = Style::new();
    let mut map = PropMap::new();
    let mut i: usize = 0;
    while i < entries.len()
        invariant
            i <= entries@.len(),
            es == entries@.map_values(|e: (String, JsonScalar, Option<PropValue>)| entry_view(e)),
            entries_sliceable(es),
            (style@, map@) == split_spec(es.take(i as int)),
        decreases entries@.len() - i,
    {
        assert(es.take(i + 1).drop_last() =~= es.take(i as int));
        let e = &entries[i];
        assert(es[i as int] == entry_view(*e));
        assert(es.take(i + 1).last() == es[i as int]);
        proof {
            if e.0@ == "border_color"@ || e.0@ == "fg"@ || e.0@ == "bg"@ {
                assert(value_sliceable(es[i as int].1));
            }
        }
        match apply_style_key(style.clone(), e.0.as_str(), &e.1) {
            Some(updated) => {
                style = updated;
            },
            None => match &e.2 {
                Some(pv) => {
                    map.insert(e.0.clone(), pv.clone());
                },
                None => {},
            },
        }
        i += 1;
    }
    assert(es.take(entries@.len() as int) =~= es);
    (style, map)
}

/// Applying a style key is idempotent: applying the same key and value a
/// second time changes nothing.
pub proof fn style_key_idempotent(style: StyleView, key: Seq<char>, value: JsonScalarView)
    ensures
        style_key_spec(style, key, value) matches Some(s1) ==> style_key_spec(s1, key, value) == Some(s1),
{
    match modifier_bit(key) {
        Some(bit) => {
            let m = style.modifiers;
            assert((m | bit) | bit == m | bit) by (bit_vector);
            assert((m & !bit) & !bit == m & !bit) by (bit_vector);
        },
        None => {},
    }
}

} // verus!
