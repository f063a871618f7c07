use tern::cell::Cell;
use tern::cell_flags;
use tern::color::Color;
use tern::style::{Modifiers, Style};
use tern::buffer::Buffer;
use tern::wasm::{
    decode_color_rgb, encode_color, fill_cell_record, flags_of, frame_records, TernWasmCell, MAX_RENDER_AXIS,
};

const CELL_SIZE: usize = std::mem::size_of::<TernWasmCell>();

#[test]
fn cell_record_layout_is_fixed_and_documented() {
    assert_eq!(CELL_SIZE, 24);
    assert_eq!(std::mem::align_of::<TernWasmCell>(), 4);
    assert_eq!(std::mem::size_of::<TernWasmCell>(), 24);
}

#[test]
fn colors_encode_with_a_tag_byte() {
    assert_eq!(encode_color(Color::Default), 0);
    assert_eq!(encode_color(Color::Indexed(9)), 0x0100_0009);
    assert_eq!(encode_color(Color::Rgb(0x12, 0x34, 0x56)), 0x0212_3456);
    assert_eq!(decode_color_rgb(0x0212_3456), Some((0x12, 0x34, 0x56)));
    assert_eq!(decode_color_rgb(0x0100_0009), None);
    assert_eq!(decode_color_rgb(0), None);
}

#[test]
fn truecolor_round_trips_through_the_encoding() {
    for (r, g, b) in [(0, 0, 0), (255, 255, 255), (1, 128, 254)] {
        assert_eq!(decode_color_rgb(encode_color(Color::Rgb(r, g, b))), Some((r, g, b)));
    }
}

#[test]
fn modifier_flags_map_bit_by_bit() {
    assert_eq!(flags_of(Modifiers::empty()), 0);
    assert_eq!(flags_of(Modifiers::bold()), cell_flags::BOLD);
    assert_eq!(flags_of(Modifiers::reversed()), cell_flags::REVERSED);
    assert_eq!(flags_of(Modifiers::blink()), cell_flags::BLINK);
    assert_eq!(
        flags_of(Modifiers::italic().insert(Modifiers::strikethrough())),
        cell_flags::ITALIC | cell_flags::STRIKETHROUGH
    );
}

#[test]
fn filled_records_carry_glyph_colors_and_symbol() {
    let mut blob = Vec::new();
    let mut rec = TernWasmCell::blank();
    let plain = Cell::styled('a', Style::new().fg(Color::Indexed(2)).add_modifier(Modifiers::bold()));
    fill_cell_record(&mut rec, &mut blob, &plain);
    assert_eq!(rec.ch, 'a' as u32);
    assert_eq!(rec.fg, 0x0100_0002);
    assert_eq!(rec.flags, cell_flags::BOLD);
    assert_eq!((rec.symbol_off, rec.symbol_len), (0, 0));
    assert_eq!(rec.text(&blob), "a");

    let mut cluster = Cell::new('e');
    cluster.symbol = Some("e\u{301}".to_string());
    let mut rec2 = TernWasmCell::blank();
    fill_cell_record(&mut rec2, &mut blob, &cluster);
    assert_eq!(rec2.symbol_off, 0);
    assert_eq!(rec2.symbol_len, 3);
    assert_eq!(rec2.text(&blob), "e\u{301}");

    let mut rec3 = TernWasmCell::blank();
    fill_cell_record(&mut rec3, &mut blob, &Cell::mask(Style::new()));
    assert_eq!(rec3.ch, 0);
    assert_eq!(rec3.flags & cell_flags::MASKED, cell_flags::MASKED);
    assert_eq!(rec3.text(&blob), "");
    assert_eq!(blob.len(), 3);
}

#[test]
fn blank_records_read_as_empty_text() {
    let rec = TernWasmCell::blank();
    assert_eq!(rec.text(&[]), "");
    let bogus = TernWasmCell { ch: 0xD800, ..TernWasmCell::blank() };
    assert_eq!(bogus.text(&[]), "");
    let out_of_range = TernWasmCell { symbol_off: 10, symbol_len: 4, ..TernWasmCell::blank() };
    assert_eq!(out_of_range.text(b"ab"), "");
    assert!(MAX_RENDER_AXIS >= 1024);
}

#[test]
fn frame_records_are_row_major_with_blanks_outside_the_buffer() {
    let mut buf = Buffer::new(2, 1);
    buf.set_char(0, 0, 'a', Style::new().fg(Color::Indexed(1)));
    buf.set_char(1, 0, 'b', Style::new());
    let (recs, blob) = frame_records(&buf, 3, 2);
    assert_eq!(recs.len(), 6);
    assert_eq!(recs[0].ch, 'a' as u32);
    assert_eq!(recs[0].fg, 0x0100_0001);
    assert_eq!(recs[1].ch, 'b' as u32);
    assert_eq!(recs[2], TernWasmCell::blank());
    assert_eq!(recs[3], TernWasmCell::blank());
    assert!(blob.is_empty());
}

#[test]
fn frame_records_put_wide_clusters_in_the_blob() {
    let mut buf = Buffer::new(4, 1);
    let mut lead = Cell::new('👨');
    lead.symbol = Some("👨\u{200d}👩".to_string());
    lead.width = 2;
    assert!(buf.set_cell(0, 0, lead));
    assert!(buf.set_cell(1, 0, Cell::mask(Style::new())));
    assert!(buf.set_cell(2, 0, Cell::new('x')));
    let (recs, blob) = frame_records(&buf, 4, 1);
    assert_eq!(recs.len(), 4);
    assert_eq!(recs[0].symbol_off, 0);
    assert_eq!(recs[0].symbol_len as usize, "👨\u{200d}👩".len());
    assert_eq!(recs[0].text(&blob), "👨\u{200d}👩");
    assert_eq!(recs[1].flags & cell_flags::MASKED, cell_flags::MASKED);
    assert_eq!(recs[2].ch, 'x' as u32);
    assert_eq!(blob.len(), "👨\u{200d}👩".len());
}

#[test]
fn empty_frame_has_no_records() {
    let buf = Buffer::new(2, 2);
    let (recs, blob) = frame_records(&buf, 0, 5);
    assert!(recs.is_empty() && blob.is_empty());
}
