use tern::buffer::{diff, Buffer, Region};
use tern::cell::{char_width, Cell};
use tern::color::Color;
use tern::cursor::Cursor;
use tern::rect::Rect;
use tern::style::{Modifiers, Style};

/// A one-row buffer sized to the display width of `text`.
fn string_row(text: &str) -> Buffer {
    let w: u16 = text
        .chars()
        .map(|c| char_width(c) as u16)
        .sum::<u16>()
        .max(1);
    let mut b = Buffer::new(w, 1);
    b.set_string(0, 0, text, Style::new());
    b
}

#[test]
fn new_buffer_is_blank() {
    let b = Buffer::new(3, 2);
    assert_eq!(b.width, 3);
    assert_eq!(b.height, 2);
    let in_bounds = (0..2u16)
        .flat_map(|y| (0..3u16).map(move |x| (x, y)))
        .filter(|&(x, y)| b.cell(x, y).is_some())
        .count();
    assert_eq!(in_bounds, 6);
    for y in 0..2 {
        for x in 0..3 {
            assert_eq!(b.cell(x, y), Some(&Cell::default()));
        }
    }
    assert_eq!(b.cell(3, 0), None);
    assert_eq!(b.cell(0, 2), None);
}

#[test]
fn index_is_row_major() {
    let b = Buffer::new(3, 2);
    assert_eq!(b.index(0, 0), Some(0));
    assert_eq!(b.index(2, 1), Some(5));
    assert_eq!(b.index(3, 1), None);
    assert_eq!(b.index(0, 2), None);
}

#[test]
fn set_cell_overwrites_in_bounds_only() {
    let mut b = Buffer::new(2, 1);
    assert!(b.set_cell(1, 0, Cell::new('q')));
    assert_eq!(b.cell(1, 0).unwrap().ch, 'q');
    assert!(!b.set_cell(2, 0, Cell::new('q')));
}

#[test]
fn set_string_wide_char_masks_neighbor() {
    let mut b = Buffer::new(8, 1);
    b.set_string(0, 0, "コa", Style::new());
    let c0 = b.cell(0, 0).unwrap();
    assert_eq!(c0.ch, 'コ');
    assert_eq!(c0.width, 2);
    assert!(!c0.is_masked());
    let c1 = b.cell(1, 0).unwrap();
    assert_eq!(c1.ch, '\0');
    assert_eq!(c1.width, 0);
    assert!(c1.is_masked());
    assert_eq!(b.cell(2, 0).unwrap().ch, 'a');
    assert_eq!(b.cell(3, 0).unwrap(), &Cell::default());
}

#[test]
fn set_char_wide_does_not_fit() {
    let mut b = Buffer::new(2, 1);
    assert!(b.set_char(0, 0, 'コ', Style::new()));
    assert!(!b.set_char(1, 0, 'コ', Style::new()));
    assert_eq!(b.cell(1, 0).unwrap().ch, '\0');
    assert!(!b.set_char(0, 1, 'x', Style::new()));
}

#[test]
fn set_string_stops_at_right_edge() {
    let mut b = Buffer::new(3, 1);
    b.set_string(0, 0, "abcd", Style::new());
    assert_eq!(b.cell(0, 0).unwrap().ch, 'a');
    assert_eq!(b.cell(1, 0).unwrap().ch, 'b');
    assert_eq!(b.cell(2, 0).unwrap().ch, 'c');
}

#[test]
fn diff_unchanged_is_empty() {
    let a = string_row("hello");
    let b = string_row("hello");
    assert!(diff(&a, &b).is_empty());
    assert!(b.diff_from(&a).is_empty());
}

#[test]
fn diff_wide_char_produces_lead_and_masked_neighbor() {
    let prev = string_row("ab ");
    let next = string_row("コ ");
    let u = diff(&prev, &next);
    assert_eq!(u.len(), 2);
    assert_eq!(u[0].x, 0);
    assert_eq!(u[0].ch, 'コ');
    assert_eq!(u[0].width, 2);
    assert!(!u[0].masked);
    assert_eq!(u[1].x, 1);
    assert_eq!(u[1].ch, '\0');
    assert_eq!(u[1].width, 0);
    assert!(u[1].masked);
}

#[test]
fn diff_wide_char_overwrites_two_single_chars() {
    let prev = string_row("ab");
    let next = string_row("コ");
    let u = diff(&prev, &next);
    assert_eq!(u.len(), 2);
    assert_eq!(u[0].x, 0);
    assert_eq!(u[0].ch, 'コ');
    assert_eq!(u[0].width, 2);
    assert!(!u[0].masked);
    assert_eq!(u[1].x, 1);
    assert_eq!(u[1].ch, '\0');
    assert_eq!(u[1].width, 0);
    assert!(u[1].masked);
}

#[test]
fn diff_wide_replaced_by_wide_is_single_update() {
    let prev = string_row("コx");
    let next = string_row("日x");
    let u = diff(&prev, &next);
    assert_eq!(u.len(), 1);
    assert_eq!(u[0].x, 0);
    assert_eq!(u[0].ch, '日');
    assert_eq!(u[0].width, 2);
    assert!(!u[0].masked);
}

#[test]
fn diff_wide_removed_clears_all_affected_columns() {
    let prev = string_row("コb");
    let next = string_row("ab ");
    let u = diff(&prev, &next);
    assert_eq!(u.len(), 3);
    assert_eq!((u[0].x, u[0].ch), (0, 'a'));
    assert_eq!((u[1].x, u[1].ch), (1, 'b'));
    assert_eq!((u[2].x, u[2].ch), (2, ' '));
    assert!(!u[1].masked);
}

#[test]
fn diff_multi_row_and_partial_change() {
    let mut prev = Buffer::new(4, 2);
    prev.set_string(0, 0, "abcd", Style::new());
    prev.set_string(0, 1, "efgh", Style::new());
    let mut next = prev.clone();
    next.set_string(1, 1, "X", Style::new());
    let u = diff(&prev, &next);
    assert_eq!(u.len(), 1);
    assert_eq!(u[0].x, 1);
    assert_eq!(u[0].y, 1);
    assert_eq!(u[0].ch, 'X');
    assert_eq!(u[0].width, 1);
}

#[test]
fn diff_rows_are_row_major_sorted() {
    let mut prev = Buffer::new(2, 2);
    prev.set_string(0, 0, "ab", Style::new());
    prev.set_string(0, 1, "cd", Style::new());
    let mut next = prev.clone();
    next.set_string(1, 0, "Y", Style::new());
    next.set_string(0, 1, "Z", Style::new());
    let u = diff(&prev, &next);
    assert_eq!(u.len(), 2);
    assert_eq!((u[0].x, u[0].y), (1, 0));
    assert_eq!((u[1].x, u[1].y), (0, 1));
}

#[test]
fn diff_different_sizes_only_reports_non_default_overflow() {
    let prev = Buffer::new(2, 1);
    let mut next = Buffer::new(4, 2);
    next.set_string(2, 1, "z", Style::new());
    let u = diff(&prev, &next);
    assert_eq!(u.len(), 1);
    assert_eq!(u[0].x, 2);
    assert_eq!(u[0].y, 1);
    assert_eq!(u[0].ch, 'z');
}

#[test]
fn diff_against_itself_is_empty_for_any_content() {
    let mut b = Buffer::new(5, 2);
    b.set_string(0, 0, "aコb", Style::new().fg(Color::Indexed(3)));
    b.set_string(1, 1, "xyz", Style::new().add_modifier(Modifiers::bold()));
    assert!(diff(&b, &b).is_empty());
}

#[test]
fn resize_grow_preserves_content() {
    let mut b = Buffer::new(2, 1);
    b.set_string(0, 0, "ab", Style::new());
    b.resize(4, 2);
    assert_eq!(b.width, 4);
    assert_eq!(b.height, 2);
    assert_eq!(b.cell(0, 0).unwrap().ch, 'a');
    assert_eq!(b.cell(1, 0).unwrap().ch, 'b');
    assert_eq!(b.cell(2, 0).unwrap(), &Cell::default());
    assert_eq!(b.cell(0, 1).unwrap(), &Cell::default());
}

#[test]
fn resize_shrink_drops_content() {
    let mut b = Buffer::new(4, 1);
    b.set_string(0, 0, "abcd", Style::new());
    b.resize(2, 1);
    assert_eq!(b.width, 2);
    assert_eq!(b.cell(0, 0).unwrap().ch, 'a');
    assert_eq!(b.cell(1, 0).unwrap().ch, 'b');
}

#[test]
fn resize_truncates_wide_char_at_right_edge() {
    let mut b = Buffer::new(4, 1);
    b.set_string(0, 0, "コ", Style::new());
    b.set_string(2, 0, "xy", Style::new());
    assert_eq!(b.cell(0, 0).unwrap().ch, 'コ');

    b.resize(2, 1);
    assert_eq!(b.cell(0, 0).unwrap().ch, 'コ');
    assert_eq!(b.cell(0, 0).unwrap().width, 2);
    assert_eq!(b.cell(1, 0).unwrap().width, 0);

    b.resize(1, 1);
    assert_eq!(b.cell(0, 0).unwrap(), &Cell::default());
    assert_eq!(b.cell(0, 0).unwrap().width, 1);
}

#[test]
fn resize_noop_same_size_keeps_content() {
    let mut b = Buffer::new(3, 2);
    b.set_string(1, 1, "z", Style::new());
    b.resize(3, 2);
    assert_eq!(b.cell(1, 1).unwrap().ch, 'z');
}

#[test]
fn clear_resets_all_cells() {
    let mut b = Buffer::new(3, 1);
    b.set_string(0, 0, "abc", Style::new());
    b.clear();
    for x in 0..3 {
        assert_eq!(b.cell(x, 0), Some(&Cell::default()));
    }
}

#[test]
fn render_caret_styles_the_cell_under_the_cursor() {
    let mut b = Buffer::new(5, 1);
    b.set_string(0, 0, "abc", Style::new());
    let caret = Cursor::new(1, 0).styled(Style::new().add_modifier(Modifiers::reversed()));
    assert!(b.render_caret(caret));
    assert_eq!(b.cell(1, 0).unwrap().ch, 'b');
    assert!(b.cell(1, 0).unwrap().style.modifiers.contains(Modifiers::reversed()));
    assert!(!b.cell(0, 0).unwrap().style.modifiers.contains(Modifiers::reversed()));
    assert!(!b.cell(2, 0).unwrap().style.modifiers.contains(Modifiers::reversed()));
}

#[test]
fn render_caret_adds_modifiers_to_the_cell_own() {
    let mut b = Buffer::new(3, 1);
    b.set_string(0, 0, "abc", Style::new().add_modifier(Modifiers::bold()));
    let caret = Cursor::new(0, 0).styled(Style::new().add_modifier(Modifiers::reversed()));
    assert!(b.render_caret(caret));
    let m = b.cell(0, 0).unwrap().style.modifiers;
    assert!(m.contains(Modifiers::bold()));
    assert!(m.contains(Modifiers::reversed()));
    assert!(b.cell(1, 0).unwrap().style.modifiers.contains(Modifiers::bold()));
    assert!(!b.cell(1, 0).unwrap().style.modifiers.contains(Modifiers::reversed()));
}

#[test]
fn render_caret_merges_explicit_colors_and_preserves_defaults() {
    let mut b = Buffer::new(3, 1);
    b.set_string(0, 0, "abc", Style::new().fg(Color::Indexed(7)));
    let caret = Cursor::new(0, 0).styled(
        Style::new()
            .bg(Color::Indexed(1))
            .add_modifier(Modifiers::bold()),
    );
    assert!(b.render_caret(caret));
    let c = b.cell(0, 0).unwrap();
    assert_eq!(c.style.fg, Color::Indexed(7));
    assert_eq!(c.style.bg, Color::Indexed(1));
    assert!(c.style.modifiers.contains(Modifiers::bold()));

    let mut b2 = Buffer::new(1, 1);
    b2.set_char(0, 0, 'x', Style::new().fg(Color::Rgb(1, 2, 3)));
    let caret2 = Cursor::new(0, 0).styled(Style::new().fg(Color::Rgb(9, 9, 9)));
    assert!(b2.render_caret(caret2));
    assert_eq!(b2.cell(0, 0).unwrap().style.fg, Color::Rgb(9, 9, 9));
    assert_eq!(b2.cell(0, 0).unwrap().style.bg, Color::Default);
}

#[test]
fn render_caret_hidden_and_out_of_bounds_are_noops() {
    let mut b = Buffer::new(3, 1);
    b.set_string(0, 0, "abc", Style::new());
    let before = b.clone();

    let hidden = Cursor::new(1, 0)
        .conceal()
        .styled(Style::new().add_modifier(Modifiers::reversed()));
    assert!(!b.render_caret(hidden));
    assert_eq!(b, before);

    assert!(!b.render_caret(Cursor::new(3, 0)));
    assert!(!b.render_caret(Cursor::new(0, 1)));
    assert_eq!(b, before);
}

#[test]
fn render_caret_skips_masked_continuation_cells() {
    let mut b = Buffer::new(4, 1);
    b.set_string(0, 0, "コa", Style::new());
    let caret = Cursor::new(1, 0).styled(Style::new().add_modifier(Modifiers::reversed()));
    assert!(!b.render_caret(caret));
    assert!(b.cell(1, 0).unwrap().is_masked());
    assert!(!b.cell(1, 0).unwrap().style.modifiers.contains(Modifiers::reversed()));

    assert!(b.render_caret(
        Cursor::new(2, 0).styled(Style::new().add_modifier(Modifiers::reversed()))
    ));
    assert!(b.cell(2, 0).unwrap().style.modifiers.contains(Modifiers::reversed()));
}

#[test]
fn render_caret_then_diff_emits_the_caret_cell() {
    let mut prev = Buffer::new(3, 1);
    prev.set_string(0, 0, "abc", Style::new());
    let mut next = prev.clone();
    assert!(next.render_caret(
        Cursor::new(1, 0).styled(Style::new().add_modifier(Modifiers::reversed()))
    ));

    let u = diff(&prev, &next);
    assert_eq!(u.len(), 1);
    assert_eq!((u[0].x, u[0].y), (1, 0));
    assert_eq!(u[0].ch, 'b');
    assert!(u[0].style.modifiers.contains(Modifiers::reversed()));
    assert!(!u[0].masked);

    let mut same = next.clone();
    assert!(same.render_caret(
        Cursor::new(1, 0).styled(Style::new().add_modifier(Modifiers::reversed()))
    ));
    assert!(diff(&next, &same).is_empty());
}

#[test]
fn region_clip_restricts_drawing_to_bounded_area() {
    let region = Region::clip_only(Rect::new(1, 1, 2, 1));
    let mut b = Buffer::new(5, 4);
    assert!(b.set_char_region(2, 1, 'x', Style::new(), region));
    assert_eq!(b.cell(2, 1).unwrap().ch, 'x');

    assert!(!b.set_char_region(0, 1, 'x', Style::new(), region));
    assert!(!b.set_char_region(3, 1, 'x', Style::new(), region));
    assert!(!b.set_char_region(2, 0, 'x', Style::new(), region));
    assert!(!b.set_char_region(2, 2, 'x', Style::new(), region));
    assert_eq!(b.cell(0, 1).unwrap(), &Cell::default());
    assert_eq!(b.cell(3, 1).unwrap(), &Cell::default());
}

#[test]
fn region_clip_also_respects_buffer_bounds() {
    let region = Region::clip_only(Rect::new(0, 0, 100, 100));
    let mut b = Buffer::new(3, 2);
    assert!(b.set_char_region(2, 1, 'a', Style::new(), region));
    assert!(!b.set_char_region(3, 0, 'x', Style::new(), region));
    assert!(!b.set_char_region(0, 2, 'x', Style::new(), region));
}

#[test]
fn region_scroll_offset_shifts_content_inside_viewport() {
    let region = Region::new(Rect::new(0, 0, 3, 2), 0, 1);
    let mut b = Buffer::new(3, 2);
    assert!(!b.set_char_region(0, 0, 'x', Style::new(), region));
    assert!(b.set_char_region(0, 1, 'a', Style::new(), region));
    assert!(b.set_char_region(1, 1, 'b', Style::new(), region));
    assert!(b.set_char_region(2, 1, 'c', Style::new(), region));
    assert_eq!(b.cell(0, 0).unwrap().ch, 'a');
    assert_eq!(b.cell(1, 0).unwrap().ch, 'b');
    assert_eq!(b.cell(2, 0).unwrap().ch, 'c');
    assert!(b.set_char_region(0, 2, 'd', Style::new(), region));
    assert_eq!(b.cell(0, 1).unwrap().ch, 'd');
    assert!(!b.set_char_region(0, 3, 'x', Style::new(), region));
    assert_eq!(b.cell(0, 1).unwrap().ch, 'd');
}

#[test]
fn region_horizontal_scroll_shifts_columns() {
    let region = Region::new(Rect::new(0, 0, 4, 1), 1, 0);
    let mut b = Buffer::new(4, 1);
    assert!(!b.set_char_region(0, 0, 'x', Style::new(), region));
    assert!(b.set_char_region(1, 0, 'h', Style::new(), region));
    assert!(b.set_char_region(2, 0, 'i', Style::new(), region));
    assert!(b.set_char_region(3, 0, 'j', Style::new(), region));
    assert_eq!(b.cell(0, 0).unwrap().ch, 'h');
    assert_eq!(b.cell(1, 0).unwrap().ch, 'i');
    assert_eq!(b.cell(2, 0).unwrap().ch, 'j');
    assert!(b.set_char_region(4, 0, 'k', Style::new(), region));
    assert_eq!(b.cell(3, 0).unwrap().ch, 'k');
    assert!(!b.set_char_region(5, 0, 'x', Style::new(), region));
}

#[test]
fn region_wide_char_needs_both_columns_inside_clip() {
    let region = Region::clip_only(Rect::new(0, 0, 3, 1));
    let mut b = Buffer::new(3, 1);
    assert!(b.set_char_region(0, 0, 'コ', Style::new(), region));
    assert_eq!(b.cell(0, 0).unwrap().ch, 'コ');
    assert_eq!(b.cell(0, 0).unwrap().width, 2);
    assert!(b.cell(1, 0).unwrap().is_masked());
    assert!(!b.set_char_region(2, 0, 'コ', Style::new(), region));
    assert_eq!(b.cell(2, 0).unwrap(), &Cell::default());
}

#[test]
fn region_string_stops_at_clip_right_edge() {
    let region = Region::clip_only(Rect::new(0, 0, 3, 1));
    let mut b = Buffer::new(3, 1);
    b.set_string_region(0, 0, "abcdef", Style::new(), region);
    assert_eq!(b.cell(0, 0).unwrap().ch, 'a');
    assert_eq!(b.cell(1, 0).unwrap().ch, 'b');
    assert_eq!(b.cell(2, 0).unwrap().ch, 'c');
}

#[test]
fn region_string_respects_scroll_and_clip() {
    let region = Region::new(Rect::new(0, 0, 4, 1), 0, 2);
    let mut b = Buffer::new(4, 1);
    b.set_string_region(0, 2, "abcd", Style::new(), region);
    assert_eq!(b.cell(0, 0).unwrap().ch, 'a');
    assert_eq!(b.cell(1, 0).unwrap().ch, 'b');
    assert_eq!(b.cell(2, 0).unwrap().ch, 'c');
    assert_eq!(b.cell(3, 0).unwrap().ch, 'd');

    let mut b2 = Buffer::new(4, 1);
    b2.set_string_region(0, 1, "abcd", Style::new(), region);
    for x in 0..4 {
        assert_eq!(b2.cell(x, 0).unwrap(), &Cell::default());
    }
}

#[test]
fn region_clip_offsets_and_scrolls_from_origin() {
    let region = Region::new(Rect::new(1, 1, 2, 1), 1, 0);
    let mut b = Buffer::new(4, 3);
    assert!(!b.set_char_region(1, 1, 'x', Style::new(), region));
    assert!(b.set_char_region(2, 1, 'y', Style::new(), region));
    assert_eq!(b.cell(1, 1).unwrap().ch, 'y');
    assert!(b.set_char_region(3, 1, 'z', Style::new(), region));
    assert_eq!(b.cell(2, 1).unwrap().ch, 'z');
}

#[test]
fn region_maps_content_coordinates() {
    let region = Region::new(Rect::new(0, 0, 4, 4), 2, -1);
    assert_eq!(region.map_x(5), 3);
    assert_eq!(region.map_y(5), 6);
    assert!(region.contains(2, -1));
    assert!(!region.contains(1, 0));
}

#[test]
fn set_char_over_continuation_blanks_the_lead() {
    let mut b = Buffer::new(2, 1);
    assert!(b.set_char(0, 0, 'コ', Style::new()));
    assert!(b.set_char(1, 0, 'a', Style::new()));
    assert_eq!(b.cell(0, 0).unwrap(), &Cell::default());
    assert_eq!(b.cell(1, 0).unwrap().ch, 'a');
    assert_eq!(b.cell(1, 0).unwrap().width, 1);
}

#[test]
fn set_char_over_wide_lead_blanks_the_continuation() {
    let mut b = Buffer::new(3, 1);
    assert!(b.set_char(0, 0, 'コ', Style::new()));
    assert!(b.set_char(0, 0, 'x', Style::new()));
    assert_eq!(b.cell(0, 0).unwrap().ch, 'x');
    assert_eq!(b.cell(1, 0).unwrap(), &Cell::default());
}

#[test]
fn wide_char_over_the_next_wide_lead_blanks_its_continuation() {
    let mut b = Buffer::new(4, 1);
    b.set_string(0, 0, "aコ", Style::new());
    // コ occupies columns 1-2; a wide char at 0 covers 0-1 and breaks it.
    assert!(b.set_char(0, 0, '日', Style::new()));
    assert_eq!(b.cell(0, 0).unwrap().ch, '日');
    assert!(b.cell(1, 0).unwrap().is_masked());
    assert_eq!(b.cell(2, 0).unwrap(), &Cell::default());
}

#[test]
fn region_write_over_continuation_blanks_the_lead() {
    let mut b = Buffer::new(4, 1);
    b.set_string(0, 0, "コ", Style::new());
    let region = Region::clip_only(Rect::new(0, 0, 4, 1));
    assert!(b.set_char_region(1, 0, 'z', Style::new(), region));
    assert_eq!(b.cell(0, 0).unwrap(), &Cell::default());
    assert_eq!(b.cell(1, 0).unwrap().ch, 'z');
}

#[test]
fn diff_reports_each_changed_cell_once_in_row_major_order() {
    let prev = Buffer::new(3, 2);
    let mut next = Buffer::new(3, 2);
    next.set_string(1, 0, "ab", Style::new());
    next.set_string(0, 1, "c", Style::new());
    let u = diff(&prev, &next);
    let at: Vec<(u16, u16, char)> = u.iter().map(|c| (c.x, c.y, c.ch)).collect();
    assert_eq!(at, vec![(1, 0, 'a'), (2, 0, 'b'), (0, 1, 'c')]);
}
