use tern::buffer::Buffer;
use tern::color::Color;
use tern::highlight::{
    changed_span, end_after, fg, highlight, segments_from_captures, style_for_capture, Capture,
    IncrementalHighlighter, Language, QuerySource, Span,
};
use tern::style::{Modifiers, Style};

const KEYWORD_FG: (u8, u8, u8) = (198, 120, 221);
const STRING_FG: (u8, u8, u8) = (152, 195, 121);
const COMMENT_FG: (u8, u8, u8) = (127, 132, 142);
const NUMBER_FG: (u8, u8, u8) = (209, 154, 102);
const FUNCTION_FG: (u8, u8, u8) = (97, 175, 239);
const TYPE_FG: (u8, u8, u8) = (229, 192, 123);

fn tone(c: (u8, u8, u8)) -> Style {
    fg(c.0, c.1, c.2)
}

/// Concatenated span text — must reconstruct the source exactly.
fn concat(spans: &[Span]) -> String {
    spans.iter().map(|s| s.text.as_str()).collect()
}

/// The first span whose text equals `text`.
fn span<'a>(spans: &'a [Span], text: &str) -> &'a Span {
    spans
        .iter()
        .find(|s| s.text == text)
        .unwrap_or_else(|| panic!("no span with text {text:?} in {spans:?}"))
}

fn fg_of(span: &Span) -> Option<(u8, u8, u8)> {
    span.style.fg.rgb()
}

#[test]
fn highlight_reconstructs_source_exactly_for_every_language() {
    let cases: &[(Language, &str)] = &[
        (Language::Rust, "fn main() {\n    let x = 42; // hi\n}\n"),
        (
            Language::TypeScript,
            "function f(a: number): string { return \"hi\"; }\n",
        ),
        (Language::JavaScript, "const f = () => 1; // hi\n"),
        (Language::Json, "{\n  \"key\": true,\n  \"n\": 1.5\n}\n"),
        (
            Language::Shell,
            "#!/bin/sh\n# comment\necho \"hello $name\"\n",
        ),
    ];
    for (language, source) in cases {
        let spans = highlight(*language, source);
        assert_eq!(concat(&spans), *source, "span stream must reconstruct source");
    }
}

#[test]
fn fence_names_map_to_languages() {
    assert_eq!(Language::from_fence_name("rust"), Some(Language::Rust));
    assert_eq!(Language::from_fence_name("rs"), Some(Language::Rust));
    assert_eq!(Language::from_fence_name("typescript"), Some(Language::TypeScript));
    assert_eq!(Language::from_fence_name("ts"), Some(Language::TypeScript));
    assert_eq!(Language::from_fence_name("tsx"), Some(Language::Tsx));
    assert_eq!(Language::from_fence_name("json"), Some(Language::Json));
    assert_eq!(Language::from_fence_name("javascript"), Some(Language::JavaScript));
    assert_eq!(Language::from_fence_name("js"), Some(Language::JavaScript));
    assert_eq!(Language::from_fence_name("jsx"), Some(Language::JavaScript));
    assert_eq!(Language::from_fence_name("bash"), Some(Language::Shell));
    assert_eq!(Language::from_fence_name("shell"), Some(Language::Shell));
    assert_eq!(Language::from_fence_name("sh"), Some(Language::Shell));
    assert_eq!(Language::from_fence_name("zsh"), Some(Language::Shell));
    assert_eq!(Language::from_fence_name("RUST"), Some(Language::Rust));
    assert_eq!(Language::from_fence_name("ruby"), None);
    assert_eq!(Language::from_fence_name(""), None);
}

#[test]
fn rust_keyword_function_string_comment_and_number_tokens_get_styles() {
    let source = "fn main() {\n    let x = 42; // the answer\n}\n";
    let spans = highlight(Language::Rust, source);

    let kw = span(&spans, "fn");
    assert_eq!(fg_of(kw), Some(KEYWORD_FG));
    assert!(!kw.style.modifiers.contains(Modifiers::italic()));

    assert_eq!(fg_of(span(&spans, "main")), Some(FUNCTION_FG));
    assert_eq!(fg_of(span(&spans, "42")), Some(NUMBER_FG));

    let comment = span(&spans, "// the answer");
    assert_eq!(fg_of(comment), Some(COMMENT_FG));
    assert!(comment.style.modifiers.contains(Modifiers::italic()));

    let src2 = "fn main() {\n    println!(\"{x}\");\n}\n";
    let spans2 = highlight(Language::Rust, src2);
    assert_eq!(fg_of(span(&spans2, "\"{x}\"")), Some(STRING_FG));
    assert_eq!(fg_of(span(&spans2, "println!")), Some(FUNCTION_FG));

    assert_eq!(concat(&spans), source);
    assert!(spans
        .iter()
        .all(|s| s.style == Style::new() || s.style.fg != Color::Default));
}

#[test]
fn json_strings_numbers_and_keywords_get_styles() {
    let source = "{\n  \"key\": true,\n  \"n\": 1.5,\n  \"s\": \"text\"\n}\n";
    let spans = highlight(Language::Json, source);
    assert_eq!(concat(&spans), source);
    assert_eq!(fg_of(span(&spans, "\"key\"")), Some(STRING_FG));
    assert_eq!(fg_of(span(&spans, "true")), Some(NUMBER_FG));
    assert_eq!(fg_of(span(&spans, "1.5")), Some(NUMBER_FG));
    assert_eq!(fg_of(span(&spans, "\"text\"")), Some(STRING_FG));
}

#[test]
fn shell_comments_strings_and_functions_get_styles() {
    let source = "#!/bin/sh\n# a comment\necho \"hello\"\n";
    let spans = highlight(Language::Shell, source);
    assert_eq!(concat(&spans), source);
    assert_eq!(fg_of(span(&spans, "# a comment")), Some(COMMENT_FG));
    assert_eq!(fg_of(span(&spans, "\"hello\"")), Some(STRING_FG));
}

#[test]
fn typescript_keywords_and_types_get_styles() {
    let source = "function f(a: number): string { return \"hi\"; }\n";
    let spans = highlight(Language::TypeScript, source);
    assert_eq!(concat(&spans), source);
    assert_eq!(fg_of(span(&spans, "function")), Some(KEYWORD_FG));
    assert_eq!(fg_of(span(&spans, "return")), Some(KEYWORD_FG));
    assert_eq!(fg_of(span(&spans, "number")), Some(TYPE_FG));
    assert_eq!(fg_of(span(&spans, "string")), Some(TYPE_FG));
    assert_eq!(fg_of(span(&spans, "f")), Some(FUNCTION_FG));
    assert_eq!(fg_of(span(&spans, "\"hi\"")), Some(STRING_FG));
}

#[test]
fn empty_and_unknown_input_yield_empty_spans() {
    assert!(highlight(Language::Rust, "").is_empty());
    let garbage = highlight(Language::Json, "not json at all {{{");
    assert_eq!(concat(&garbage), "not json at all {{{");
    let half = "fn main() {\n    let x = ";
    let spans = highlight(Language::Rust, half);
    assert_eq!(concat(&spans), half);
}

/// Paint a span stream into a `width`-wide buffer, wrapping at the right
/// edge and on newlines, honoring per-span styles.
fn paint_spans(spans: &[Span], width: u16, height: u16) -> Buffer {
    let mut buf = Buffer::new(width, height);
    let (mut col, mut row) = (0u16, 0u16);
    for span in spans {
        for ch in span.text.chars() {
            if ch == '\n' {
                row += 1;
                col = 0;
                continue;
            }
            let w = unicode_width::UnicodeWidthChar::width(ch).unwrap_or(0) as u16;
            if col + w > width {
                row += 1;
                col = 0;
            }
            if row >= height {
                break;
            }
            buf.set_char(col, row, ch, span.style.clone());
            col += w;
        }
    }
    buf
}

#[test]
fn golden_rust_snippet_token_colors() {
    let source = "fn main() {\n    let x = 42; // the answer\n    println!(\"ok\");\n}\n";
    let spans = highlight(Language::Rust, source);

    let buffer = paint_spans(&spans, 40, 5);

    assert_eq!(buffer.cell(0, 0).unwrap().ch, 'f');
    assert_eq!(buffer.cell(0, 0).unwrap().style.fg, Color::Rgb(198, 120, 221));
    assert_eq!(buffer.cell(1, 0).unwrap().ch, 'n');
    assert_eq!(buffer.cell(3, 0).unwrap().ch, 'm');
    assert_eq!(buffer.cell(3, 0).unwrap().style.fg, Color::Rgb(97, 175, 239));
    assert_eq!(buffer.cell(7, 0).unwrap().style.fg, Color::Default);
    assert_eq!(buffer.cell(9, 0).unwrap().style.fg, Color::Default);

    assert_eq!(buffer.cell(4, 1).unwrap().ch, 'l');
    assert_eq!(buffer.cell(4, 1).unwrap().style.fg, Color::Rgb(198, 120, 221));
    assert_eq!(buffer.cell(12, 1).unwrap().ch, '4');
    assert_eq!(buffer.cell(12, 1).unwrap().style.fg, Color::Rgb(209, 154, 102));

    let comment_start = buffer.cell(16, 1).unwrap();
    assert_eq!(comment_start.ch, '/');
    assert_eq!(comment_start.style.fg, Color::Rgb(127, 132, 142));
    assert!(comment_start.style.modifiers.contains(Modifiers::italic()));

    assert_eq!(buffer.cell(13, 2).unwrap().ch, '"');
    assert_eq!(buffer.cell(13, 2).unwrap().style.fg, Color::Rgb(152, 195, 121));

    let mut expected = Buffer::new(40, 5);
    let default = Style::new();
    let pin = |buf: &mut Buffer, y: u16, text: &str, style: Style| {
        for (x, ch) in text.chars().enumerate() {
            buf.set_char(x as u16, y, ch, style.clone());
        }
    };
    pin(&mut expected, 0, "fn main() {", default.clone());
    for x in 0..2 {
        expected.set_char(x, 0, "fn".chars().nth(x as usize).unwrap(), tone(KEYWORD_FG));
    }
    expected.set_char(2, 0, ' ', default.clone());
    for (i, ch) in "main".chars().enumerate() {
        expected.set_char(3 + i as u16, 0, ch, tone(FUNCTION_FG));
    }
    expected.set_char(7, 0, '(', default.clone());
    expected.set_char(8, 0, ')', default.clone());
    expected.set_char(9, 0, ' ', default.clone());
    expected.set_char(10, 0, '{', default.clone());
    pin(&mut expected, 1, "    let x = 42; // the answer", default.clone());
    for (i, ch) in "let".chars().enumerate() {
        expected.set_char(4 + i as u16, 1, ch, tone(KEYWORD_FG));
    }
    expected.set_char(12, 1, '4', tone(NUMBER_FG));
    expected.set_char(13, 1, '2', tone(NUMBER_FG));
    for (i, ch) in "// the answer".chars().enumerate() {
        expected.set_char(
            16 + i as u16,
            1,
            ch,
            tone(COMMENT_FG).add_modifier(Modifiers::italic()),
        );
    }
    pin(&mut expected, 2, "    println!(\"ok\");", default.clone());
    for (i, ch) in "println!".chars().enumerate() {
        expected.set_char(4 + i as u16, 2, ch, tone(FUNCTION_FG));
    }
    expected.set_char(12, 2, '(', default.clone());
    for (i, ch) in "\"ok\"".chars().enumerate() {
        expected.set_char(13 + i as u16, 2, ch, tone(STRING_FG));
    }
    expected.set_char(17, 2, ')', default.clone());
    expected.set_char(18, 2, ';', default.clone());
    pin(&mut expected, 3, "}", default.clone());

    assert_eq!(buffer, expected);
}

/// A large, well-formed Rust source (2048 complete top-level items).
fn big_rust_fence() -> String {
    let mut src = String::with_capacity(64 * 2048);
    src.push_str("// generated fence\n");
    for i in 0..2048 {
        src.push_str(&format!("fn f{i:04}() -> u32 {{ {i} }}\n"));
    }
    src
}

#[test]
fn incremental_append_reworks_only_the_tail() {
    let mut hl = IncrementalHighlighter::new(Language::Rust).expect("rust grammar/query load");
    let fence = big_rust_fence();
    hl.append(&fence);

    let tail = "fn tail() -> u32 { 0 }\n";
    hl.append(tail);

    let (start, end) = hl.last_changed_span();
    let changed = end - start;
    assert!(
        changed <= tail.len() + 64,
        "incremental parse reworked {changed} bytes ({start}..{end}), expected at most {} + 64",
        tail.len()
    );
}

#[test]
fn incremental_spans_are_byte_identical_to_full_highlight() {
    let fence = big_rust_fence();
    let tail = "fn tail() -> u32 { 0 }\n";
    let full = format!("{fence}{tail}");

    let mut hl = IncrementalHighlighter::new(Language::Rust).expect("rust grammar/query load");
    for group in fence.lines().collect::<Vec<_>>().chunks(512) {
        let mut part = String::new();
        for line in group {
            part.push_str(line);
            part.push('\n');
        }
        hl.append(&part);
    }
    let incremental = hl.append(tail);

    let one_shot = highlight(Language::Rust, &full);
    assert_eq!(incremental.len(), one_shot.len());
    for (i, (inc, one)) in incremental.iter().zip(one_shot.iter()).enumerate() {
        assert_eq!(inc.text, one.text, "span {i} text differs");
        assert_eq!(inc.style, one.style, "span {i} style differs");
    }
    assert_eq!(concat(&incremental), full);
}

#[test]
fn fresh_one_shot_parse_marks_the_whole_source_changed() {
    let mut hl = IncrementalHighlighter::new(Language::Rust).expect("rust grammar/query load");
    let fence = big_rust_fence();
    hl.append(&fence);
    assert_eq!(hl.last_changed_span(), (0, fence.len()));
}

#[test]
fn incremental_reset_starts_a_fresh_full_parse() {
    let mut hl = IncrementalHighlighter::new(Language::Rust).expect("rust grammar/query load");
    hl.append(&big_rust_fence());
    hl.reset();
    assert_eq!(hl.last_changed_span(), (0, 0));
    let fence = "fn reset() {}\n";
    let spans = hl.append(fence);
    assert_eq!(concat(&spans), fence);
    assert_eq!(hl.last_changed_span(), (0, fence.len()));
}

// --- the verified pieces on chosen values ------------------------------------

#[test]
fn capture_names_resolve_to_palette_styles() {
    assert_eq!(style_for_capture("keyword"), tone(KEYWORD_FG));
    assert_eq!(style_for_capture("keyword.return"), tone(KEYWORD_FG));
    assert_eq!(
        style_for_capture("comment"),
        tone(COMMENT_FG).add_modifier(Modifiers::italic())
    );
    assert_eq!(style_for_capture("punctuation.bracket"), Style::new());
    assert_eq!(style_for_capture("nonsense"), Style::new());
}

#[test]
fn segments_cover_gaps_with_plain_text_and_merge_equal_neighbors() {
    let source = "let x = 1;";
    let captures: Vec<Capture> = vec![(0, 3, tone(KEYWORD_FG)), (8, 9, tone(NUMBER_FG))];
    let spans = segments_from_captures(source, &captures);
    assert_eq!(concat(&spans), source);
    assert_eq!(spans.len(), 4);
    assert_eq!(spans[0].text, "let");
    assert_eq!(spans[1].text, " x = ");
    assert_eq!(spans[1].style, Style::new());
    assert_eq!(spans[2].text, "1");
    assert_eq!(spans[3].text, ";");
    for w in spans.windows(2) {
        assert_ne!(w[0].style, w[1].style);
    }
}

#[test]
fn end_after_advances_rows_and_columns() {
    assert_eq!(end_after((0, 0), "ab"), (0, 2));
    assert_eq!(end_after((2, 5), "x\nyz"), (3, 2));
    assert_eq!(end_after((1, 1), ""), (1, 1));
}

#[test]
fn changed_span_covers_the_ranges_or_the_growth() {
    assert_eq!(changed_span(&vec![(30, 40), (10, 20)], 25, 50), (10, 40));
    assert_eq!(changed_span(&vec![], 25, 50), (25, 50));
}

#[test]
fn typescript_runs_the_javascript_query_first() {
    assert_eq!(Language::Rust.highlights_queries(), vec![QuerySource::Rust]);
    assert_eq!(
        Language::TypeScript.highlights_queries(),
        vec![QuerySource::JavaScript, QuerySource::TypeScript]
    );
    assert_eq!(Language::Tsx.highlights_queries(), vec![QuerySource::JavaScript, QuerySource::TypeScript]);
    assert_eq!(Language::JavaScript.highlights_queries(), vec![QuerySource::JavaScript]);
    assert_eq!(Language::Json.highlights_queries(), vec![QuerySource::Json]);
    assert_eq!(Language::Shell.highlights_queries(), vec![QuerySource::Bash]);
}

#[test]
fn highlight_spans_are_never_empty() {
    for (language, source) in [
        (Language::Rust, "fn main() { let s = \"héllo\"; } // ünïcode\n"),
        (Language::Json, "{\"a\": [1, 2.5, true, null]}"),
        (Language::Shell, "echo \"$HOME\" # done\n"),
    ] {
        let spans = highlight(language, source);
        assert!(!spans.is_empty());
        assert!(spans.iter().all(|s| !s.text.is_empty()));
        assert_eq!(concat(&spans), source);
        assert!(spans.windows(2).all(|w| w[0].style != w[1].style));
    }
}

#[test]
fn first_append_is_a_one_shot_highlight() {
    let source = "fn main() {\n    let x = 42; // hi\n}\n";
    let mut hl = IncrementalHighlighter::new(Language::Rust).expect("rust grammar/query load");
    let appended = hl.append(source);
    let one_shot = highlight(Language::Rust, source);
    assert_eq!(appended.len(), one_shot.len());
    for (a, b) in appended.iter().zip(one_shot.iter()) {
        assert_eq!(a.text, b.text);
        assert_eq!(a.style, b.style);
    }
}
