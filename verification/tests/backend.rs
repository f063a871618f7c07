use tern::backend::{
    capabilities_for, cell_advance, cell_text, contains_str, cursor_style, disable_event_listening_to,
    enable_event_listening_to, extended_underline, flush_cursor_to, flush_diff_to,
    flush_diff_with_cursor_to, push_dec, queue_cells,
    queue_color_with, queue_modifiers, queue_startup_to, queue_underline_with, rgb_to_ansi256,
    set_clipboard_to, set_title_to, underline_styles_for, BackendCapabilities, CaretStyle,
    Backend, ColorSupport, Run,
};
use tern::cell::CellUpdate;
use tern::color::Color as TernColor;
use tern::cursor::{Cursor, CursorShape};
use tern::style::{Modifiers, Style, UnderlineStyle};

const TRUECOLOR: BackendCapabilities = BackendCapabilities {
    truecolor: true,
    colors: 16_777_216,
    underline_styles: false,
};

/// Run the diff flusher into a string, with an unknown prior park position
/// and crossterm's color output on (`NO_COLOR` unset).
fn flush(updates: &[CellUpdate], cursor_pos: (u16, u16)) -> String {
    let mut out = String::new();
    let mut last_flush_pos = None;
    flush_diff_to(&mut out, updates, cursor_pos, &mut last_flush_pos, TRUECOLOR);
    out
}

fn update(x: u16, y: u16, ch: char, style: Style, width: u8, masked: bool) -> CellUpdate {
    CellUpdate {
        x,
        y,
        ch,
        symbol: None,
        style,
        width,
        masked,
    }
}

fn cluster_update(x: u16, y: u16, ch: char, symbol: &str, style: Style, width: u8) -> CellUpdate {
    CellUpdate {
        x,
        y,
        ch,
        symbol: Some(symbol.into()),
        style,
        width,
        masked: false,
    }
}

fn flush_caret(cursor: Cursor) -> String {
    let mut out = String::new();
    flush_cursor_to(&mut out, &cursor);
    out
}

#[test]
fn enable_event_listening_emits_mouse_and_focus_enable_sequences() {
    let mut out = String::new();
    enable_event_listening_to(&mut out);
    assert_eq!(
        out, "\x1b[?1000h\x1b[?1002h\x1b[?1003h\x1b[?1015h\x1b[?1006h\x1b[?1004h\x1b[?2004h",
        "got: {out:?}"
    );
}

#[test]
fn disable_event_listening_emits_mouse_and_focus_disable_sequences() {
    let mut out = String::new();
    disable_event_listening_to(&mut out);
    assert_eq!(
        out, "\x1b[?1006l\x1b[?1015l\x1b[?1003l\x1b[?1002l\x1b[?1000l\x1b[?1004l\x1b[?2004l",
        "got: {out:?}"
    );
}

#[test]
fn flush_diff_moves_writes_and_parks_cursor() {
    let s = flush(&[update(2, 1, 'x', Style::new(), 1, false)], (0, 0));
    assert!(s.contains("\x1b[2;3H\x1b[0mx"), "got: {s:?}");
    assert!(s.ends_with("\x1b[1;1H\x1b[0m\x1b[0m"), "got: {s:?}");
    assert_eq!(s.matches("\x1b[0m").count(), 3, "got: {s:?}");
}

#[test]
fn flush_diff_applies_indexed_and_rgb_colors() {
    let fg_indexed = Style::new().fg(TernColor::Indexed(1));
    let fg_rgb = Style::new().fg(TernColor::Rgb(1, 2, 3));
    let bg_indexed = Style::new().bg(TernColor::Indexed(4));
    let s = flush(
        &[
            update(0, 0, 'a', fg_indexed, 1, false),
            update(1, 0, 'b', fg_rgb, 1, false),
            update(2, 0, 'c', bg_indexed, 1, false),
        ],
        (0, 0),
    );
    assert!(s.contains("\x1b[1;1H\x1b[0m\x1b[38;5;1ma"), "got: {s:?}");
    assert!(s.contains("\x1b[1;2H\x1b[0m\x1b[38;2;1;2;3mb"), "got: {s:?}");
    assert!(s.contains("\x1b[1;3H\x1b[0m\x1b[48;5;4mc"), "got: {s:?}");
}

#[test]
fn flush_diff_applies_modifiers() {
    let bold = Style::new().add_modifier(Modifiers::bold());
    let dim = Style::new().add_modifier(Modifiers::dim());
    let s = flush(
        &[update(0, 0, 'a', bold, 1, false), update(1, 0, 'b', dim, 1, false)],
        (0, 0),
    );
    assert!(s.contains("\x1b[1;1H\x1b[0m\x1b[1ma"), "got: {s:?}");
    assert!(s.contains("\x1b[1;2H\x1b[0m\x1b[2mb"), "got: {s:?}");
}

#[test]
fn flush_diff_clears_masked_cells_and_keeps_wide_chars() {
    let s = flush(
        &[
            update(0, 0, '\0', Style::new(), 0, true),
            update(1, 0, 'コ', Style::new(), 2, false),
        ],
        (0, 0),
    );
    assert!(s.starts_with("\x1b[1;1H\x1b[0m コ"), "got: {s:?}");
    assert!(!s.contains("\x1b[2;2H"), "got: {s:?}");
}

#[test]
fn flush_diff_prints_zwj_cluster_symbol_once() {
    let style = Style::new();
    let s = flush(
        &[
            cluster_update(0, 0, '👨', "👨‍👩‍👧‍👦", style.clone(), 2),
            update(1, 0, '\0', style.clone(), 0, true),
            update(2, 0, 'x', style, 1, false),
        ],
        (0, 0),
    );
    assert!(s.starts_with("\x1b[1;1H\x1b[0m👨‍👩‍👧‍👦"), "got: {s:?}");
    assert!(s.contains("\x1b[1;2H x"), "got: {s:?}");
    assert_eq!(s.matches("👨‍👩‍👧‍👦").count(), 1, "got: {s:?}");
}

#[test]
fn flush_diff_prints_combining_sequence_symbol_once() {
    let style = Style::new();
    let s = flush(
        &[
            cluster_update(0, 0, 'e', "e\u{301}", style.clone(), 1),
            update(1, 0, 'a', style, 1, false),
        ],
        (0, 0),
    );
    assert!(s.starts_with("\x1b[1;1H\x1b[0me\u{301}a"), "got: {s:?}");
    assert_eq!(s.matches("e\u{301}").count(), 1, "got: {s:?}");
}

#[test]
fn flush_diff_batches_adjacent_same_style_cells() {
    let s = flush(
        &[
            update(0, 0, 'a', Style::new(), 1, false),
            update(1, 0, 'b', Style::new(), 1, false),
        ],
        (0, 0),
    );
    assert!(s.starts_with("\x1b[1;1H\x1b[0mab"), "got: {s:?}");
    assert!(!s.contains("\x1b[2;2H"), "got: {s:?}");
    assert!(!s.contains("a\x1b[0m"), "got: {s:?}");
    assert_eq!(s, "\x1b[1;1H\x1b[0mab\x1b[1;1H\x1b[0m\x1b[0m", "got: {s:?}");
}

#[test]
fn flush_diff_splits_runs_on_gap_and_style_change() {
    let s = flush(
        &[
            update(0, 0, 'a', Style::new(), 1, false),
            update(2, 0, 'b', Style::new(), 1, false),
        ],
        (0, 0),
    );
    assert!(s.contains("\x1b[1;1H\x1b[0ma"), "got: {s:?}");
    assert!(s.contains("\x1b[1;3Hb"), "got: {s:?}");
    assert!(!s.contains("\x1b[1;3H\x1b[0m"), "got: {s:?}");

    let s = flush(
        &[
            update(0, 0, 'コ', Style::new(), 2, false),
            update(1, 0, '\0', Style::new(), 0, true),
            update(2, 0, 'x', Style::new(), 1, false),
        ],
        (0, 0),
    );
    assert!(s.contains("\x1b[1;1H\x1b[0mコ"), "got: {s:?}");
    assert!(s.contains("\x1b[1;2H x"), "got: {s:?}");
    assert!(!s.contains("\x1b[1;2H\x1b[0m"), "got: {s:?}");
}

#[test]
fn flush_diff_skips_sgr_between_same_style_runs() {
    let fg1 = Style::new().fg(TernColor::Indexed(1));
    let s = flush(
        &[update(0, 0, 'a', fg1.clone(), 1, false), update(2, 0, 'b', fg1, 1, false)],
        (0, 0),
    );
    assert_eq!(s.matches("\x1b[0m").count(), 3, "got: {s:?}");
    assert_eq!(s.matches("\x1b[38;5;1m").count(), 1, "got: {s:?}");
    assert_eq!(
        s, "\x1b[1;1H\x1b[0m\x1b[38;5;1ma\x1b[1;3Hb\x1b[1;1H\x1b[0m\x1b[0m",
        "got: {s:?}"
    );
}

#[test]
fn flush_diff_reapplies_sgr_on_style_change_between_runs() {
    let fg1 = Style::new().fg(TernColor::Indexed(1));
    let fg2 = Style::new().fg(TernColor::Indexed(2));
    let s = flush(
        &[
            update(0, 0, 'a', fg1.clone(), 1, false),
            update(2, 0, 'b', fg2, 1, false),
            update(4, 0, 'c', fg1, 1, false),
        ],
        (0, 0),
    );
    assert_eq!(s.matches("\x1b[0m").count(), 5, "got: {s:?}");
    assert_eq!(s.matches("\x1b[38;5;1m").count(), 2, "got: {s:?}");
    assert_eq!(s.matches("\x1b[38;5;2m").count(), 1, "got: {s:?}");
    assert_eq!(
        s,
        "\x1b[1;1H\x1b[0m\x1b[38;5;1ma\x1b[1;3H\x1b[0m\x1b[38;5;2mb\x1b[1;5H\x1b[0m\x1b[38;5;1mc\x1b[1;1H\x1b[0m\x1b[0m",
        "got: {s:?}"
    );
}

#[test]
fn flush_diff_wraps_linked_run_in_osc8_hyperlink() {
    let linked = Style::new().hyperlink(Some("https://example.com".into()));
    let s = flush(&[update(0, 0, 'l', linked, 1, false)], (0, 0));
    assert_eq!(
        s,
        "\x1b[1;1H\x1b[0m\x1b]8;;https://example.com\x1b\\l\x1b]8;;\x1b\\\x1b[1;1H\x1b[0m\x1b[0m",
        "the linked text must be wrapped in OSC 8 open/close"
    );
}

#[test]
fn flush_diff_unlinked_run_emits_no_osc8() {
    let linked = Style::new().hyperlink(Some("https://example.com".into()));
    let s = flush(
        &[update(0, 0, 'l', linked, 1, false), update(1, 0, 'p', Style::new(), 1, false)],
        (0, 0),
    );
    assert_eq!(
        s,
        "\x1b[1;1H\x1b[0m\x1b]8;;https://example.com\x1b\\l\x1b]8;;\x1b\\\x1b[1;2H\x1b[0mp\x1b[1;1H\x1b[0m\x1b[0m",
        "only the linked run wraps in OSC 8"
    );
}

#[test]
fn empty_diff_with_same_park_writes_nothing() {
    let mut out = String::new();
    let mut last_flush_pos = None;
    flush_diff_to(
        &mut out,
        &[update(0, 0, 'x', Style::new(), 1, false)],
        (2, 3),
        &mut last_flush_pos,
        TRUECOLOR,
    );
    assert!(!out.is_empty(), "seed flush should write cells");
    out.clear();

    flush_diff_to(&mut out, &[], (2, 3), &mut last_flush_pos, TRUECOLOR);
    assert!(out.is_empty(), "got: {:?}", out);
}

#[test]
fn empty_diff_with_moved_park_emits_only_move_to() {
    let mut out = String::new();
    let mut last_flush_pos = None;
    flush_diff_to(
        &mut out,
        &[update(0, 0, 'x', Style::new(), 1, false)],
        (0, 0),
        &mut last_flush_pos,
        TRUECOLOR,
    );
    out.clear();

    flush_diff_to(&mut out, &[], (5, 4), &mut last_flush_pos, TRUECOLOR);
    assert_eq!(out, "\x1b[5;6H", "got: {:?}", out);

    out.clear();
    flush_diff_to(&mut out, &[], (5, 4), &mut last_flush_pos, TRUECOLOR);
    assert!(out.is_empty(), "got: {:?}", out);
}

#[test]
fn empty_diff_with_unknown_park_emits_move_to() {
    let mut out = String::new();
    let mut last_flush_pos = None;
    flush_diff_to(&mut out, &[], (3, 1), &mut last_flush_pos, TRUECOLOR);
    assert_eq!(out, "\x1b[2;4H", "got: {:?}", out);
    assert_eq!(last_flush_pos, Some((3, 1)));
}

#[test]
fn non_empty_diff_output_is_unchanged_and_records_park() {
    let mut out = String::new();
    let mut last_flush_pos = None;
    flush_diff_to(
        &mut out,
        &[
            update(0, 0, 'a', Style::new(), 1, false),
            update(1, 0, 'b', Style::new(), 1, false),
        ],
        (0, 0),
        &mut last_flush_pos,
        TRUECOLOR,
    );
    assert_eq!(out, "\x1b[1;1H\x1b[0mab\x1b[1;1H\x1b[0m\x1b[0m", "got: {:?}", out);
    assert_eq!(last_flush_pos, Some((0, 0)));
}

#[test]
fn flush_diff_to_matches_one_color_mode() {
    let updates = [update(0, 0, 'a', Style::new().fg(TernColor::Indexed(3)), 1, false)];
    crossterm::style::Colored::set_ansi_color_disabled(true);
    let mut off = String::new();
    flush_diff_to(&mut off, &updates, (0, 0), &mut None, TRUECOLOR);
    crossterm::style::Colored::set_ansi_color_disabled(false);
    let mut on = String::new();
    flush_diff_to(&mut on, &updates, (0, 0), &mut None, TRUECOLOR);
    assert_eq!(on, "\x1b[1;1H\x1b[0m\x1b[38;5;3ma\x1b[1;1H\x1b[0m\x1b[0m", "got: {on:?}");
    assert_eq!(off, "\x1b[1;1H\x1b[0m\x1b[ma\x1b[1;1H\x1b[0m\x1b[0m", "got: {off:?}");
}

#[test]
fn flush_caret_moves_to_position_and_hides() {
    let s = flush_caret(Cursor::new(3, 2).conceal());
    assert!(s.starts_with("\x1b[3;4H"), "got: {s:?}");
    assert!(s.contains("\x1b[?25l"), "got: {s:?}");
    assert!(s.ends_with("\x1b[0m\x1b[0m"), "got: {s:?}");
}

#[test]
fn flush_caret_moves_to_position_and_shows() {
    let s = flush_caret(Cursor::new(0, 0).show());
    assert!(s.starts_with("\x1b[1;1H"), "got: {s:?}");
    assert!(s.contains("\x1b[?25h"), "got: {s:?}");
    assert!(!s.contains("\x1b[?25l"), "got: {s:?}");
}

#[test]
fn flush_diff_with_caret_emits_cells_then_caret_state() {
    let mut out = String::new();
    let updates = [update(0, 0, 'x', Style::new(), 1, false)];
    let caret = Cursor::new(5, 4).styled(Style::new().add_modifier(Modifiers::reversed()));
    flush_diff_with_cursor_to(&mut out, &updates, &caret, TRUECOLOR);
    assert!(out.contains("\x1b[1;1H\x1b[0mx"), "got: {out:?}");
    assert_eq!(out, "\x1b[1;1H\x1b[0mx\x1b[5;6H\x1b[?25h\x1b[0m\x1b[0m", "got: {out:?}");
}

#[test]
fn flush_diff_with_caret_hides_a_hidden_caret() {
    let mut out = String::new();
    let updates = [update(1, 0, 'y', Style::new(), 1, false)];
    let caret = Cursor::hidden().at(2, 2);
    flush_diff_with_cursor_to(&mut out, &updates, &caret, TRUECOLOR);
    assert_eq!(out, "\x1b[1;2H\x1b[0my\x1b[3;3H\x1b[?25l\x1b[0m\x1b[0m", "got: {out:?}");
}

#[test]
fn flush_caret_emits_no_style_for_the_default_cursor() {
    let shown = flush_caret(Cursor::new(0, 0).show());
    assert_eq!(shown, "\x1b[1;1H\x1b[?25h\x1b[0m\x1b[0m", "got: {shown:?}");
    let blocked = flush_caret(Cursor::new(0, 0).block());
    assert_eq!(blocked, shown, "got: {blocked:?}");
    assert!(!shown.contains(" q"), "got: {shown:?}");
}

#[test]
fn flush_caret_emits_decsusr_style_per_shape_and_blink() {
    let cases: &[(Cursor, &str)] = &[
        (Cursor::new(0, 0).show().blink(), "\x1b[1 q"),
        (Cursor::new(0, 0).show().bar(), "\x1b[6 q"),
        (Cursor::new(0, 0).show().bar().blink(), "\x1b[5 q"),
        (Cursor::new(0, 0).show().underline(), "\x1b[4 q"),
        (Cursor::new(0, 0).show().underline().blink(), "\x1b[3 q"),
    ];
    for (caret, style) in cases {
        let s = flush_caret(caret.clone());
        assert_eq!(
            s,
            format!("\x1b[1;1H{style}\x1b[?25h\x1b[0m\x1b[0m"),
            "cursor {caret:?} must emit {style:?}, got: {s:?}"
        );
    }
}

#[test]
fn flush_caret_emits_style_for_a_hidden_non_default_caret() {
    let out = flush_caret(Cursor::hidden().at(1, 1).bar());
    assert_eq!(out, "\x1b[2;2H\x1b[6 q\x1b[?25l\x1b[0m\x1b[0m", "got: {out:?}");
}

#[test]
fn flush_diff_with_caret_emits_style_between_cells_and_visibility() {
    let mut out = String::new();
    let updates = [update(0, 0, 'x', Style::new(), 1, false)];
    let caret = Cursor::new(5, 4).underline().blink();
    flush_diff_with_cursor_to(&mut out, &updates, &caret, TRUECOLOR);
    assert_eq!(
        out, "\x1b[1;1H\x1b[0mx\x1b[5;6H\x1b[3 q\x1b[?25h\x1b[0m\x1b[0m",
        "got: {out:?}"
    );
}

#[test]
fn rgb_to_ansi256_picks_nearest_palette_index() {
    assert_eq!(rgb_to_ansi256(255, 0, 0), 196);
    assert_eq!(rgb_to_ansi256(0, 0, 0), 16);
    assert_eq!(rgb_to_ansi256(255, 255, 255), 231);
    assert_eq!(rgb_to_ansi256(128, 128, 128), 244);
}

#[test]
fn rgb_to_ansi256_stays_in_the_cube_and_ramp() {
    for (r, g, b) in [(1, 2, 3), (200, 10, 90), (50, 50, 50), (254, 254, 254)] {
        assert!(rgb_to_ansi256(r, g, b) >= 16);
    }
    assert_eq!(rgb_to_ansi256(95, 135, 175), 16 + 36 + 2 * 6 + 3);
}

#[test]
fn queue_color_keeps_rgb_when_truecolor_supported() {
    let mut out = String::new();
    queue_color_with(&mut out, TernColor::Rgb(1, 2, 3), true, TRUECOLOR);
    assert_eq!(out, "\x1b[38;2;1;2;3m", "got: {out:?}");
}

#[test]
fn queue_color_quantizes_rgb_without_truecolor() {
    let caps = BackendCapabilities {
        truecolor: false,
        colors: 256,
        underline_styles: false,
    };
    let mut out = String::new();
    queue_color_with(&mut out, TernColor::Rgb(255, 0, 0), true, caps);
    assert_eq!(out, "\x1b[38;5;196m");
    let mut out = String::new();
    queue_color_with(&mut out, TernColor::Rgb(128, 128, 128), false, caps);
    assert_eq!(out, "\x1b[48;5;244m");
}

#[test]
fn queue_color_drops_rgb_on_a_small_palette() {
    let caps = BackendCapabilities {
        truecolor: false,
        colors: 16,
        underline_styles: false,
    };
    let mut out = String::new();
    queue_color_with(&mut out, TernColor::Rgb(255, 0, 0), true, caps);
    assert!(out.is_empty(), "got: {:?}", out);
}

#[test]
fn queue_color_default_writes_nothing_and_with_matches_a_mode() {
    let mut out = String::new();
    queue_color_with(&mut out, TernColor::Default, true, TRUECOLOR);
    assert!(out.is_empty());
    let mut out = String::new();
    queue_color_with(&mut out, TernColor::Indexed(5), false, TRUECOLOR);
    assert!(out == "\x1b[48;5;5m" || out == "\x1b[m", "got: {out:?}");
}

#[test]
fn queue_underline_emits_extended_sgr_when_supported() {
    let caps = BackendCapabilities {
        truecolor: true,
        colors: 16_777_216,
        underline_styles: true,
    };
    let mut out = String::new();
    queue_underline_with(&mut out, &Style::new().underline_style(UnderlineStyle::Curly), caps);
    assert_eq!(out, "\x1b[4:3m", "curly");

    let mut out = String::new();
    queue_underline_with(
        &mut out,
        &Style::new().underline_color(Some(TernColor::Rgb(255, 0, 0))),
        caps,
    );
    assert_eq!(out, "\x1b[58;2;255;0;0m", "color-only underline");

    let mut out = String::new();
    queue_underline_with(
        &mut out,
        &Style::new()
            .underline_style(UnderlineStyle::Double)
            .underline_color(Some(TernColor::Rgb(1, 2, 3))),
        caps,
    );
    assert_eq!(out, "\x1b[4:2m\x1b[58;2;1;2;3m", "variant then color");

    let mut out = String::new();
    queue_underline_with(
        &mut out,
        &Style::new()
            .underline_style(UnderlineStyle::Dotted)
            .underline_color(Some(TernColor::Indexed(9))),
        caps,
    );
    assert_eq!(out, "\x1b[4:4m\x1b[58;5;9m");
}

#[test]
fn queue_underline_falls_back_to_plain_when_unsupported() {
    let mut out = String::new();
    queue_underline_with(&mut out, &Style::new().underline_style(UnderlineStyle::Curly), TRUECOLOR);
    assert_eq!(out, "\x1b[4m", "plain fallback");

    let mut out = String::new();
    queue_underline_with(
        &mut out,
        &Style::new().underline_color(Some(TernColor::Rgb(255, 0, 0))),
        TRUECOLOR,
    );
    assert_eq!(out, "\x1b[4m", "color fallback");
}

#[test]
fn queue_underline_leaves_legacy_bit_to_the_modifier_pass() {
    let caps = BackendCapabilities {
        truecolor: true,
        colors: 16_777_216,
        underline_styles: true,
    };
    let mut out = String::new();
    queue_underline_with(&mut out, &Style::new().add_modifier(Modifiers::underline()), caps);
    assert!(out.is_empty(), "got: {:?}", out);

    let mut out = String::new();
    queue_underline_with(&mut out, &Style::new(), caps);
    assert!(out.is_empty(), "got: {:?}", out);
}

#[test]
fn flush_diff_extended_underline_run_emits_one_underline_command() {
    let curly = Style::new().underline_style(UnderlineStyle::Curly);
    let s = flush(&[update(0, 0, 'u', curly, 1, false)], (0, 0));
    let extended = s.matches("\x1b[4:3m").count();
    let plain = s.matches("\x1b[4m").count();
    assert_eq!(extended + plain, 1, "got: {s:?}");
    assert!(s.contains("\x1b[1;1H\x1b[0m\x1b[4"), "got: {s:?}");
}

#[test]
fn flush_diff_legacy_underline_run_keeps_attribute_underlined() {
    let legacy = Style::new().add_modifier(Modifiers::underline());
    let s = flush(&[update(0, 0, 'u', legacy, 1, false)], (0, 0));
    assert!(s.contains("\x1b[1;1H\x1b[0m\x1b[4mu"), "got: {s:?}");
    assert_eq!(s.matches("\x1b[4m").count(), 1, "got: {s:?}");
}

#[test]
fn set_title_emits_osc0_title_sequence() {
    let mut out = String::new();
    set_title_to(&mut out, "Hello");
    assert_eq!(out, "\x1b]0;Hello\x07");
}

#[test]
fn set_clipboard_emits_osc52_clipboard_sequence() {
    let mut out = String::new();
    set_clipboard_to(&mut out, "foo");
    assert_eq!(out, "\x1b]52;c;Zm9v\x07", "got: {:?}", out);
    assert!(!out.as_bytes().windows(2).any(|w| w == b"\x1b\\"), "got: {:?}", out);
}

#[test]
fn set_clipboard_base64_encodes_utf8_bytes() {
    let mut out = String::new();
    set_clipboard_to(&mut out, "hi🙂");
    assert_eq!(out, "\x1b]52;c;aGnwn5mC\x07", "the payload must base64-encode the UTF-8 bytes");
}

#[test]
fn startup_enters_alt_screen_sets_title_and_enables_events() {
    let mut out = String::new();
    queue_startup_to(&mut out, true, Some("tern"));
    assert!(out.starts_with("\x1b[?1049h"), "got: {out:?}");
    assert!(out.contains("\x1b]0;tern\x07"), "got: {out:?}");
    assert!(out.contains("\x1b[?1000h"), "got: {out:?}");
}

#[test]
fn startup_off_emits_no_enter_alternate_screen_escape() {
    let mut out = String::new();
    queue_startup_to(&mut out, false, None);
    assert!(!out.contains("\x1b[?1049h"), "got: {out:?}");
    assert!(out.contains("\x1b[?1000h"), "got: {out:?}");
}

// --- the verified helpers on chosen values ----------------------------------

#[test]
fn push_dec_writes_decimal_digits() {
    let mut out = String::from("n=");
    push_dec(&mut out, 0);
    push_dec(&mut out, 4096);
    assert_eq!(out, "n=04096");
}

#[test]
fn capabilities_follow_the_reported_color_level() {
    let full = ColorSupport { has_basic: true, has_256: true, has_16m: true };
    let c256 = ColorSupport { has_basic: true, has_256: true, has_16m: false };
    let basic = ColorSupport { has_basic: true, has_256: false, has_16m: false };
    let none = ColorSupport { has_basic: false, has_256: false, has_16m: false };
    assert_eq!(capabilities_for(Some(full), false), TRUECOLOR);
    assert_eq!(
        capabilities_for(Some(c256), true),
        BackendCapabilities { truecolor: false, colors: 256, underline_styles: true }
    );
    assert_eq!(capabilities_for(Some(basic), false).colors, 16);
    assert_eq!(capabilities_for(Some(none), false), TRUECOLOR);
    assert_eq!(capabilities_for(None, false), TRUECOLOR);
}

#[test]
fn underline_support_is_detected_from_the_terminal_names() {
    assert!(underline_styles_for("kitty", ""));
    assert!(underline_styles_for("WezTerm", "xterm"));
    assert!(underline_styles_for("", "xterm-kitty"));
    assert!(!underline_styles_for("Apple_Terminal", "xterm-256color"));
    assert!(contains_str("abcd", "bc"));
    assert!(!contains_str("abcd", "cb"));
    assert!(contains_str("abc", ""));
}

#[test]
fn extended_underline_means_a_variant_or_a_color() {
    assert!(!extended_underline(&Style::new()));
    assert!(!extended_underline(&Style::new().add_modifier(Modifiers::underline())));
    assert!(extended_underline(&Style::new().underline_style(UnderlineStyle::Single)));
    assert!(extended_underline(&Style::new().underline_color(Some(TernColor::Indexed(1)))));
    assert!(!extended_underline(&Style::new().underline_color(Some(TernColor::Default))));
}

#[test]
fn modifiers_queue_in_fixed_order() {
    let mut out = String::new();
    queue_modifiers(
        &mut out,
        Modifiers::strikethrough().insert(Modifiers::bold()).insert(Modifiers::reversed()),
    );
    assert_eq!(out, "\x1b[1m\x1b[7m\x1b[9m");
}

#[test]
fn cursor_styles_map_shape_and_blink() {
    assert_eq!(cursor_style(CursorShape::Block, true), CaretStyle::BlinkingBlock);
    assert_eq!(cursor_style(CursorShape::Block, false), CaretStyle::SteadyBlock);
    assert_eq!(cursor_style(CursorShape::Bar, false), CaretStyle::SteadyBar);
    assert_eq!(cursor_style(CursorShape::Underline, true), CaretStyle::BlinkingUnderScore);
}

#[test]
fn cell_text_and_advance_follow_the_update() {
    let masked = update(0, 0, '\0', Style::new(), 0, true);
    assert_eq!(cell_text(&masked), " ");
    assert_eq!(cell_advance(&masked), 1);
    let wide = update(0, 0, 'コ', Style::new(), 2, false);
    assert_eq!(cell_text(&wide), "コ");
    assert_eq!(cell_advance(&wide), 2);
    let cluster = cluster_update(0, 0, 'e', "e\u{301}", Style::new(), 1);
    assert_eq!(cell_text(&cluster), "e\u{301}");
}

#[test]
fn runs_extend_only_on_adjacent_same_style_cells() {
    let a = update(3, 1, 'a', Style::new(), 1, false);
    let mut run = Run::start(&a);
    let b = update(4, 1, 'b', Style::new(), 1, false);
    assert!(run.can_extend(&b));
    run.push(&b);
    assert!(!run.can_extend(&update(6, 1, 'c', Style::new(), 1, false)));
    assert!(!run.can_extend(&update(5, 1, 'c', Style::new().fg(TernColor::Indexed(1)), 1, false)));
    let mut out = String::new();
    let mut last = None;
    run.queue(&mut out, &mut last, TRUECOLOR);
    assert_eq!(out, "\x1b[2;4H\x1b[0mab");
    let mut again = String::new();
    run.queue(&mut again, &mut last, TRUECOLOR);
    assert_eq!(again, "\x1b[2;4Hab");
}

#[test]
fn every_update_is_printed_exactly_once() {
    let updates = [
        update(0, 0, 'a', Style::new(), 1, false),
        update(1, 0, 'b', Style::new(), 1, false),
        update(5, 0, 'c', Style::new(), 1, false),
        update(0, 2, 'd', Style::new().fg(TernColor::Indexed(2)), 1, false),
    ];
    let mut out = String::new();
    queue_cells(&mut out, &updates, TRUECOLOR);
    for ch in ['a', 'b', 'c', 'd'] {
        assert_eq!(out.matches(ch).count(), 1, "got: {out:?}");
    }
}

#[test]
fn backend_skips_an_empty_frame_parked_in_place() {
    let mut backend = Backend::new();
    let mut out = String::new();
    backend.queue_diff(&mut out, &[update(0, 0, 'x', Style::new(), 1, false)], (2, 3), TRUECOLOR);
    assert!(out.contains("x"));
    out.clear();
    backend.queue_diff(&mut out, &[], (2, 3), TRUECOLOR);
    assert!(out.is_empty(), "got: {:?}", out);
    backend.queue_diff(&mut out, &[], (4, 1), TRUECOLOR);
    assert_eq!(out, "\x1b[2;5H");
}

#[test]
fn fresh_backend_moves_on_an_empty_frame() {
    let mut backend = Backend::default();
    let mut out = String::new();
    backend.queue_diff(&mut out, &[], (0, 0), TRUECOLOR);
    assert_eq!(out, "\x1b[1;1H");
}

#[test]
fn clipboard_payload_is_padded_standard_base64_of_utf8() {
    for (text, b64) in [("", ""), ("f", "Zg=="), ("fo", "Zm8="), ("foo", "Zm9v"), ("foob", "Zm9vYg=="), ("é?>", "w6k/Pg==")] {
        let mut out = String::new();
        set_clipboard_to(&mut out, text);
        assert_eq!(out, format!("\x1b]52;c;{b64}\x07"));
    }
}
