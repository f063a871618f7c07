//! Cell styling: foreground/background colors, text modifiers, border style.

use vstd::prelude::*;
use crate::color::Color;

verus! {

/// Text modifier flags (bold, underline, ...).
///
/// A compact hand-rolled bit set.
#[derive(Debug, Clone, Copy, PartialEq, Eq, Structural, Hash, Default)]
pub struct Modifiers(u16);

impl View for Modifiers {
    type V = u16;

    closed spec fn view(&self) -> u16 {
        self.0
    }
}

impl Modifiers {
    /// No modifiers.
    pub fn empty() -> (m: Modifiers)
        ensures
            m@ == 0u16,
    {
        Modifiers(0)
    }

    /// Bold text.
    pub fn bold() -> (m: Modifiers)
        ensures
            m@ == 1u16,
    {
        Modifiers(1)
    }

    /// Dim / faint text.
    pub fn dim() -> (m: Modifiers)
        ensures
            m@ == 2u16,
    {
        Modifiers(2)
    }

    /// Italic text.
    pub fn italic() -> (m: Modifiers)
        ensures
            m@ == 4u16,
    {
        Modifiers(4)
    }

    /// Underlined text.
    pub fn underline() -> (m: Modifiers)
        ensures
            m@ == 8u16,
    {
        Modifiers(8)
    }

    /// Blinking text.
    pub fn blink() -> (m: Modifiers)
        ensures
            m@ == 16u16,
    {
        Modifiers(16)
    }

    /// Reversed (swapped fg/bg) text.
    pub fn reversed() -> (m: Modifiers)
        ensures
            m@ == 32u16,
    {
        Modifiers(32)
    }

    /// Hidden / invisible text.
    pub fn hidden() -> (m: Modifiers)
        ensures
            m@ == 64u16,
    {
        Modifiers(64)
    }

    /// Strikethrough text.
    pub fn strikethrough() -> (m: Modifiers)
        ensures
            m@ == 128u16,
    {
        Modifiers(128)
    }

    /// The raw bit representation.
    pub fn bits(self) -> (b: u16)
        ensures
            b == self@,
    {
        self.0
    }

    /// Whether no modifier bit is set.
    pub fn is_empty(self) -> (b: bool)
        ensures
            b == (self@ == 0),
    {
        self.0 == 0
    }

    /// Whether all bits of `other` are set in `self`.
    pub fn contains(self, other: Self) -> (b: bool)
        ensures
            b == (self@ & other@ == other@),
    {
        self.0 & other.0 == other.0
    }

    /// Return `self` with all bits of `other` set.
    pub fn insert(self, other: Self) -> (m: Self)
        ensures
            m@ == self@ | other@,
    {
        Modifiers(self.0 | other.0)
    }

    /// Return `self` with all bits of `other` cleared.
    pub fn remove(self, other: Self) -> (m: Self)
        ensures
            m@ == self@ & !other@,
    {
        Modifiers(self.0 & !other.0)
    }

    /// Bitwise union of two modifier sets.
    pub fn union(self, other: Self) -> (m: Self)
        ensures
            m@ == self@ | other@,
    {
        Modifiers(self.0 | other.0)
    }
}

/// The underline style of a text run, per the kitty extended SGR underline
/// protocol (`\x1b[4:Nm`). `Unstyled` — the default — carries no style variant.
#[derive(Debug, Clone, Copy, PartialEq, Eq, Structural, Hash, Default)]
pub enum UnderlineStyle {
    /// No underline style variant (the default).
    #[default]
    Unstyled,
    /// A single (plain) underline — `\x1b[4:1m`.
    Single,
    /// A double underline — `\x1b[4:2m`.
    Double,
    /// A curly (squiggly) underline — `\x1b[4:3m`.
    Curly,
    /// A dotted underline — `\x1b[4:4m`.
    Dotted,
    /// A dashed underline — `\x1b[4:5m`.
    Dashed,
}

/// Border glyph set used when drawing a box frame.
#[derive(Debug, Clone, Copy, PartialEq, Eq, Structural, Hash, Default)]
pub enum BorderStyle {
    /// No border.
    #[default]
    Borderless,
    /// ASCII box glyphs (`+ - |`).
    Plain,
    /// Rounded corner glyphs.
    Rounded,
    /// Double-line glyphs.
    Double,
    /// Heavy-line glyphs.
    Thick,
}

/// The visual style of a cell or a scene node.
#[derive(Debug, Eq, Hash)]
pub struct Style {
    /// Foreground color.
    pub fg: Color,
    /// Background color.
    pub bg: Color,
    /// Text modifier flags.
    pub modifiers: Modifiers,
    /// Border style used when the node is painted as a box.
    pub border_style: BorderStyle,
    /// The color the node's box border glyphs are painted with (`Default`
    /// keeps the style's own `fg`).
    pub border_color: Color,
    /// The hyperlink target (a URL) of the cells painted with this style.
    /// Participates in style equality.
    pub hyperlink: Option<String>,
    /// The underline style variant of the run's text.
    pub underline_style: UnderlineStyle,
    /// The color the run's underline is painted with.
    pub underline_color: Option<Color>,
}

/// The mathematical value of a [`Style`]: its fields, with the hyperlink
/// taken as the sequence of its characters.
pub struct StyleView {
    pub fg: Color,
    pub bg: Color,
    pub modifiers: u16,
    pub border_style: BorderStyle,
    pub border_color: Color,
    pub hyperlink: Option<Seq<char>>,
    pub underline_style: UnderlineStyle,
    pub underline_color: Option<Color>,
}

/// The character sequence of an optional string.
pub open spec fn opt_str_view(s: Option<String>) -> Option<Seq<char>> {
    match s {
        Some(t) => Some(t@),
        None => None,
    }
}

impl View for Style {
    type V = StyleView;

    open spec fn view(&self) -> StyleView {
        StyleView {
            fg: self.fg,
            bg: self.bg,
            modifiers: self.modifiers@,
            border_style: self.border_style,
            border_color: self.border_color,
            hyperlink: opt_str_view(self.hyperlink),
            underline_style: self.underline_style,
            underline_color: self.underline_color,
        }
    }
}

/// The view of the plain, unstyled style.
pub open spec fn plain_style() -> StyleView {
    StyleView {
        fg: Color::Default,
        bg: Color::Default,
        modifiers: 0,
        border_style: BorderStyle::Borderless,
        border_color: Color::Default,
        hyperlink: None,
        underline_style: UnderlineStyle::Unstyled,
        underline_color: None,
    }
}

/// Copy an optional string.
pub fn clone_opt_string(s: &Option<String>) -> (r: Option<String>)
    ensures
        opt_str_view(r) == opt_str_view(*s),
{
    match s {
        Some(t) => Some(t.clone()),
        None => None,
    }
}

/// Compare two optional strings by content.
pub fn opt_string_eq(a: &Option<String>, b: &Option<String>) -> (r: bool)
    ensures
        r == (opt_str_view(*a) == opt_str_view(*b)),
{
    match a {
        Some(x) => match b {
            Some(y) => x.eq(y),
            None => false,
        },
        None => b.is_none(),
    }
}

/// Compare two optional colors.
pub fn opt_color_eq(a: Option<Color>, b: Option<Color>) -> (r: bool)
    ensures
        r == (a == b),
{
    match a {
        Some(x) => match b {
            Some(y) => x == y,
            None => false,
        },
        None => b.is_none(),
    }
}

impl Clone for Style {
    fn clone(&self) -> (r: Self)
        ensures
            r@ == self@,
    {
        Style {
            fg: self.fg,
            bg: self.bg,
            modifiers: self.modifiers,
            border_style: self.border_style,
            border_color: self.border_color,
            hyperlink: clone_opt_string(&self.hyperlink),
            underline_style: self.underline_style,
            underline_color: self.underline_color,
        }
    }
}

impl PartialEq for Style {
    fn eq(&self, other: &Self) -> (r: bool) {
        self.fg == other.fg && self.bg == other.bg && self.modifiers == other.modifiers
            && self.border_style == other.border_style && self.border_color == other.border_color
            && opt_string_eq(&self.hyperlink, &other.hyperlink)
            && self.underline_style == other.underline_style
            && opt_color_eq(self.underline_color, other.underline_color)
    }
}

impl vstd::std_specs::cmp::PartialEqSpecImpl for Style {
    open spec fn obeys_eq_spec() -> bool {
        true
    }

    open spec fn eq_spec(&self, other: &Self) -> bool {
        self@ == other@
    }
}

impl Default for Style {
    fn default() -> (s: Self)
        ensures
            s@ == plain_style(),
    {
        Style::new()
    }
}

impl Style {
    /// A plain, unstyled style.
    pub fn new() -> (s: Self)
        ensures
            s@ == plain_style(),
    {
        Style {
            fg: Color::Default,
            bg: Color::Default,
            modifiers: Modifiers::empty(),
            border_style: BorderStyle::Borderless,
            border_color: Color::Default,
            hyperlink: None,
            underline_style: UnderlineStyle::Unstyled,
            underline_color: None,
        }
    }

    /// Builder: set the foreground color.
    pub fn fg(self, fg: Color) -> (s: Self)
        ensures
            s@ == (StyleView { fg, ..self@ }),
    {
        let mut s = self;
        s.fg = fg;
        s
    }

    /// Builder: set the background color.
    pub fn bg(self, bg: Color) -> (s: Self)
        ensures
            s@ == (StyleView { bg, ..self@ }),
    {
        let mut s = self;
        s.bg = bg;
        s
    }

    /// Builder: replace the modifier set.
    pub fn modifier(self, modifiers: Modifiers) -> (s: Self)
        ensures
            s@ == (StyleView { modifiers: modifiers@, ..self@ }),
    {
        let mut s = self;
        s.modifiers = modifiers;
        s
    }

    /// Builder: add modifiers to the existing set.
    pub fn add_modifier(self, modifier: Modifiers) -> (s: Self)
        ensures
            s@ == (StyleView { modifiers: self@.modifiers | modifier@, ..self@ }),
    {
        let mut s = self;
        s.modifiers = s.modifiers.insert(modifier);
        s
    }

    /// Builder: set the border style.
    pub fn border_style(self, border_style: BorderStyle) -> (s: Self)
        ensures
            s@ == (StyleView { border_style, ..self@ }),
    {
        let mut s = self;
        s.border_style = border_style;
        s
    }

    /// Builder: set the color the border glyphs are painted with.
    pub fn border_color(self, border_color: Color) -> (s: Self)
        ensures
            s@ == (StyleView { border_color, ..self@ }),
    {
        let mut s = self;
        s.border_color = border_color;
        s
    }

    /// Builder: set the hyperlink target (`None` clears it).
    pub fn hyperlink(self, hyperlink: Option<String>) -> (s: Self)
        ensures
            s@ == (StyleView { hyperlink: opt_str_view(hyperlink), ..self@ }),
    {
        let mut s = self;
        s.hyperlink = hyperlink;
        s
    }

    /// Builder: set the underline style variant.
    pub fn underline_style(self, underline_style: UnderlineStyle) -> (s: Self)
        ensures
            s@ == (StyleView { underline_style, ..self@ }),
    {
        let mut s = self;
        s.underline_style = underline_style;
        s
    }

    /// Builder: set the color the underline is painted with.
    pub fn underline_color(self, underline_color: Option<Color>) -> (s: Self)
        ensures
            s@ == (StyleView { underline_color, ..self@ }),
    {
        let mut s = self;
        s.underline_color = underline_color;
        s
    }
}

} // verus!
