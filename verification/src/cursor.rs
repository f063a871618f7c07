//! The text cursor (caret) model: position, visibility, shape, blinking, and
//! render style.

use vstd::prelude::*;
use crate::style::{Style, StyleView, plain_style};

verus! {

/// The rendered shape of the terminal's hardware caret, per DECSCUSR: a
/// block, a vertical bar, or an underline. The terminal's default is a
/// steady block.
#[derive(Debug, Clone, Copy, PartialEq, Eq, Structural, Default)]
pub enum CursorShape {
    /// The block caret — the terminal's default shape.
    #[default]
    Block,
    /// The vertical bar caret.
    Bar,
    /// The underline caret.
    Underline,
}

/// The text cursor of a frame: a 0-based grid position, a visibility flag,
/// the DECSCUSR shape / blinking of the hardware caret, and the style used to
/// paint a block caret over the cell under the cursor.
#[derive(Debug, Eq)]
pub struct Cursor {
    /// Column (0-based cell column).
    pub x: u16,
    /// Row (0-based cell row).
    pub y: u16,
    /// Whether the caret is shown.
    pub visible: bool,
    /// Style applied to the cell under the cursor when the caret is rendered.
    pub style: Style,
    /// The rendered shape of the hardware caret.
    pub shape: CursorShape,
    /// Whether the hardware caret blinks.
    pub blinking: bool,
}

/// The mathematical value of a [`Cursor`].
pub struct CursorView {
    pub x: u16,
    pub y: u16,
    pub visible: bool,
    pub style: StyleView,
    pub shape: CursorShape,
    pub blinking: bool,
}

impl View for Cursor {
    type V = CursorView;

    open spec fn view(&self) -> CursorView {
        CursorView {
            x: self.x,
            y: self.y,
            visible: self.visible,
            style: self.style@,
            shape: self.shape,
            blinking: self.blinking,
        }
    }
}

impl Clone for Cursor {
    fn clone(&self) -> (c: Self)
        ensures
            c@ == self@,
    {
        Cursor {
            x: self.x,
            y: self.y,
            visible: self.visible,
            style: self.style.clone(),
            shape: self.shape,
            blinking: self.blinking,
        }
    }
}

impl PartialEq for Cursor {
    fn eq(&self, other: &Self) -> (r: bool) {
        self.x == other.x && self.y == other.y && self.visible == other.visible
            && self.style == other.style && self.shape == other.shape
            && self.blinking == other.blinking
    }
}

impl vstd::std_specs::cmp::PartialEqSpecImpl for Cursor {
    open spec fn obeys_eq_spec() -> bool {
        true
    }

    open spec fn eq_spec(&self, other: &Self) -> bool {
        self@ == other@
    }
}

impl Default for Cursor {
    /// A visible steady block caret at the origin with the default style.
    fn default() -> (c: Self)
        ensures
            c@ == (CursorView {
                x: 0, y: 0, visible: true, style: plain_style(), shape: CursorShape::Block, blinking: false,
            }),
    {
        Cursor::new(0, 0)
    }
}

impl Cursor {
    /// A visible block caret at (`x`, `y`) with the default style.
    pub fn new(x: u16, y: u16) -> (c: Self)
        ensures
            c@ == (CursorView {
                x, y, visible: true, style: plain_style(), shape: CursorShape::Block, blinking: false,
            }),
    {
        Cursor { x, y, visible: true, style: Style::new(), shape: CursorShape::Block, blinking: false }
    }

    /// A hidden caret at the origin.
    pub fn hidden() -> (c: Self)
        ensures
            c@ == (CursorView {
                x: 0, y: 0, visible: false, style: plain_style(), shape: CursorShape::Block, blinking: false,
            }),
    {
        Cursor { x: 0, y: 0, visible: false, style: Style::new(), shape: CursorShape::Block, blinking: false }
    }

    /// Builder: move the caret to (`x`, `y`).
    pub fn at(self, x: u16, y: u16) -> (c: Self)
        ensures
            c@ == (CursorView { x, y, ..self@ }),
    {
        let mut c = self;
        c.x = x;
        c.y = y;
        c
    }

    /// Builder: mark the caret visible.
    pub fn show(self) -> (c: Self)
        ensures
            c@ == (CursorView { visible: true, ..self@ }),
    {
        let mut c = self;
        c.visible = true;
        c
    }

    /// Builder: mark the caret hidden.
    pub fn conceal(self) -> (c: Self)
        ensures
            c@ == (CursorView { visible: false, ..self@ }),
    {
        let mut c = self;
        c.visible = false;
        c
    }

    /// Builder: give the caret a block shape (the terminal default).
    pub fn block(self) -> (c: Self)
        ensures
            c@ == (CursorView { shape: CursorShape::Block, ..self@ }),
    {
        let mut c = self;
        c.shape = CursorShape::Block;
        c
    }

    /// Builder: give the caret a vertical bar shape.
    pub fn bar(self) -> (c: Self)
        ensures
            c@ == (CursorView { shape: CursorShape::Bar, ..self@ }),
    {
        let mut c = self;
        c.shape = CursorShape::Bar;
        c
    }

    /// Builder: give the caret an underline shape.
    pub fn underline(self) -> (c: Self)
        ensures
            c@ == (CursorView { shape: CursorShape::Underline, ..self@ }),
    {
        let mut c = self;
        c.shape = CursorShape::Underline;
        c
    }

    /// Builder: make the caret blink.
    pub fn blink(self) -> (c: Self)
        ensures
            c@ == (CursorView { blinking: true, ..self@ }),
    {
        let mut c = self;
        c.blinking = true;
        c
    }

    /// Builder: set the style the caret renders with.
    pub fn styled(self, style: Style) -> (c: Self)
        ensures
            c@ == (CursorView { style: style@, ..self@ }),
    {
        let mut c = self;
        c.style = style;
        c
    }

    /// Whether the caret is currently visible.
    pub fn is_visible(&self) -> (b: bool)
        ensures
            b == self.visible,
    {
        self.visible
    }

    /// The caret position as `(x, y)`.
    pub fn position(&self) -> (p: (u16, u16))
        ensures
            p == (self.x, self.y),
    {
        (self.x, self.y)
    }
}

} // verus!
