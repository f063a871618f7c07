use tern::color::Color;
use tern::cursor::{Cursor, CursorShape};
use tern::style::{Modifiers, Style};

#[test]
fn default_is_visible_at_origin() {
    let c = Cursor::default();
    assert_eq!(c.position(), (0, 0));
    assert!(c.is_visible());
    assert_eq!(c.style, Style::new());
    assert_eq!(c, Cursor::new(0, 0));
}

#[test]
fn default_shape_is_steady_block() {
    let c = Cursor::default();
    assert_eq!(c.shape, CursorShape::Block);
    assert!(!c.blinking);
    assert_eq!(Cursor::new(3, 1).shape, CursorShape::Block);
    assert!(!Cursor::hidden().blinking);
    assert_eq!(CursorShape::default(), CursorShape::Block);
}

#[test]
fn new_tracks_position() {
    let c = Cursor::new(7, 3);
    assert_eq!(c.position(), (7, 3));
    assert_eq!((c.x, c.y), (7, 3));
    assert!(c.is_visible());
}

#[test]
fn at_repositions() {
    let c = Cursor::new(1, 1).at(9, 5);
    assert_eq!(c.position(), (9, 5));
    assert!(c.is_visible());
    let h = Cursor::hidden().at(4, 2);
    assert_eq!(h.position(), (4, 2));
    assert!(!h.is_visible());
}

#[test]
fn show_hide_flip_visibility() {
    let mut c = Cursor::new(2, 2);
    assert!(c.is_visible());
    c = c.conceal();
    assert!(!c.is_visible());
    c = c.show();
    assert!(c.is_visible());
    assert_eq!(c.position(), (2, 2));

    assert!(Cursor::hidden().show().is_visible());
    assert!(!Cursor::new(0, 0).conceal().is_visible());
}

#[test]
fn styled_sets_render_style() {
    let reversed = Style::new().add_modifier(Modifiers::reversed());
    let c = Cursor::new(3, 3).styled(reversed.clone());
    assert_eq!(c.style, reversed);
    assert!(c.style.modifiers.contains(Modifiers::reversed()));

    let red = Style::new().fg(Color::Rgb(255, 0, 0));
    let c2 = Cursor::hidden().at(1, 1).styled(red);
    assert_eq!(c2.style.fg, Color::Rgb(255, 0, 0));
    assert!(!c2.is_visible());
}

#[test]
fn shape_builders_set_the_decscusr_shape() {
    assert_eq!(Cursor::new(0, 0).bar().shape, CursorShape::Bar);
    assert_eq!(Cursor::new(0, 0).underline().shape, CursorShape::Underline);
    assert_eq!(Cursor::new(0, 0).block().shape, CursorShape::Block);
    let c = Cursor::hidden().at(5, 2).bar().blink();
    assert_eq!((c.x, c.y), (5, 2));
    assert!(!c.is_visible());
    assert_eq!(c.shape, CursorShape::Bar);
    assert!(c.blinking);
    let restored = c.clone().block();
    assert_eq!(restored.shape, CursorShape::Block);
    assert!(restored.blinking);
}

#[test]
fn blink_flips_blinking_without_touching_shape() {
    let c = Cursor::new(1, 1).blink();
    assert!(c.blinking);
    assert_eq!(c.shape, CursorShape::Block);
    assert!(Cursor::new(0, 0).underline().blink().blinking);
    assert_eq!(Cursor::new(0, 0).underline().blink().shape, CursorShape::Underline);
    assert!(!Cursor::new(0, 0).bar().blinking);
}
