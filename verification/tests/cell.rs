use std::borrow::Cow;
use tern::cell::{char_width, cluster_width, clusters, strip_escapes, Cell, Cluster};
use tern::style::Style;

#[test]
fn char_width_classification() {
    assert_eq!(char_width('a'), 1);
    assert_eq!(char_width(' '), 1);
    assert_eq!(char_width('コ'), 2);
    assert_eq!(char_width('日'), 2);
    assert_eq!(char_width('\0'), 0);
    assert_eq!(char_width('\u{0301}'), 0);
    assert_eq!(char_width('\t'), 1);
}

#[test]
fn strip_escapes_removes_csi_and_osc_sequences() {
    assert_eq!(strip_escapes("\x1b[31mred\x1b[0m"), "red");
    assert_eq!(strip_escapes("\x1b[1m\x1b[38;2;255;0;0mbold\x1b[0m"), "bold");
    assert_eq!(strip_escapes("\x1b[?25l"), "");
    assert_eq!(strip_escapes("\x1b[2J"), "");
    assert_eq!(strip_escapes("\x1b]0;title\x07"), "");
    assert_eq!(strip_escapes("a\x1b]8;;http://example.com\x1b\\b"), "ab");
    assert_eq!(strip_escapes("\x1b]0;title\u{9c}"), "");
    assert_eq!(strip_escapes("\x1b]0;a\x1bb\x07"), "");
    assert_eq!(strip_escapes("\u{9b}31mred\u{9b}0m"), "red");
    assert_eq!(strip_escapes("red\x1b[31"), "red");
    assert_eq!(strip_escapes("red\x1b]0;unterminated"), "red");
}

#[test]
fn strip_escapes_leaves_plain_text_borrowed() {
    let plain = "e\u{301}日\n";
    assert_eq!(strip_escapes(plain), plain);
    assert!(matches!(strip_escapes(plain), Cow::Borrowed(_)));
    assert_eq!(strip_escapes("a\x1bb"), "a\x1bb");
    assert_eq!(strip_escapes("a\u{9d}b"), "a\u{9d}b");
    assert_eq!(strip_escapes("e\u{301}日\0"), "e\u{301}日\0");
}

#[test]
fn strip_escapes_is_idempotent() {
    for s in ["\x1b[31mred\x1b[0m", "a\x1b]8;;x\x1b\\b", "plain", "\u{9b}1mz"] {
        let once = strip_escapes(s).into_owned();
        assert_eq!(strip_escapes(&once), once.as_str());
    }
}

#[test]
fn ansi_escapes_measure_as_invisible() {
    let colored = strip_escapes("\x1b[31mred\x1b[0m");
    assert_eq!(
        clusters(&colored).iter().map(|c| (c.text, c.width)).collect::<Vec<_>>(),
        clusters("red").iter().map(|c| (c.text, c.width)).collect::<Vec<_>>(),
    );
    assert_eq!(cluster_width("\x1b[31mred\x1b[0m"), cluster_width("red"));
    assert_eq!(cluster_width("\x1b[31me\x1b[0m"), 1);
    assert_eq!(cluster_width("\x1b[31mコ\x1b[0m"), 2);
    assert_eq!(cluster_width("\x1b[31me\u{301}\x1b[0m"), 1);
    assert_eq!(cluster_width("\x1b[31m\0\x1b[0m"), 0);
}

#[test]
fn cell_defaults_and_mask() {
    let c = Cell::default();
    assert_eq!(c.ch, ' ');
    assert_eq!(c.symbol, None);
    assert_eq!(c.width, 1);
    assert!(!c.is_masked());

    let m = Cell::mask(Style::new());
    assert_eq!(m.ch, '\0');
    assert_eq!(m.symbol, None);
    assert_eq!(m.width, 0);
    assert!(m.is_masked());
    assert_ne!(c, m);
}

#[test]
fn grapheme_clusters_split_emoji_and_combining() {
    let family = clusters("👨‍👩‍👧‍👦");
    assert_eq!(family.len(), 1);
    assert_eq!(family[0].text, "👨‍👩‍👧‍👦");
    assert_eq!(family[0].width, 2);

    let flag = clusters("🇷🇺");
    assert_eq!(flag.len(), 1);
    assert_eq!(flag[0].text, "🇷🇺");
    assert_eq!(flag[0].width, 2);

    let keycap = clusters("1️⃣");
    assert_eq!(keycap.len(), 1);
    assert_eq!(keycap[0].text, "1️⃣");

    let combining = clusters("e\u{301}");
    assert_eq!(combining.len(), 1);
    assert_eq!(combining[0].text, "e\u{301}");
    assert_eq!(combining[0].width, 1);

    let crlf = clusters("a\r\nb");
    assert_eq!(crlf.len(), 3);
    assert_eq!(crlf[1].text, "\r\n");

    assert_eq!(clusters("ab").iter().map(|c| c.text).collect::<Vec<_>>(), ["a", "b"]);
}

#[test]
fn clusters_concatenate_back_to_the_input() {
    for s in ["", "abc", "e\u{301}x", "👨‍👩‍👧‍👦!", "a\r\nb日"] {
        let joined: String = clusters(s).iter().map(|c| c.text).collect();
        assert_eq!(joined, s);
    }
}

#[test]
fn cluster_symbols_are_only_for_multi_char_clusters() {
    let single = Cluster { text: "a", width: 1 };
    assert_eq!(single.symbol(), None);
    assert_eq!(single.lead(), 'a');

    let wide = Cluster { text: "コ", width: 2 };
    assert_eq!(wide.symbol(), None);

    let seq = Cluster { text: "e\u{301}", width: 1 };
    assert_eq!(seq.symbol().as_deref(), Some("e\u{301}"));
    assert_eq!(seq.lead(), 'e');

    let family = Cluster {
        text: "👨‍👩‍👧‍👦",
        width: 2,
    };
    assert_eq!(family.symbol().as_deref(), Some("👨‍👩‍👧‍👦"));
    assert_eq!(family.lead(), '👨');
}

#[test]
fn cell_symbol_str_returns_full_cluster() {
    let single = Cell {
        ch: 'a',
        symbol: None,
        style: Style::new(),
        width: 1,
    };
    assert_eq!(single.symbol_str(), "a");

    let cluster = Cell {
        ch: 'e',
        symbol: Some("e\u{301}".into()),
        style: Style::new(),
        width: 1,
    };
    assert_eq!(cluster.symbol_str(), "e\u{301}");
}

#[test]
fn cell_constructors_are_single_width() {
    assert_eq!(Cell::new('コ').width, 1);
    assert_eq!(Cell::new('x').width, 1);
    let s = Style::new();
    assert_eq!(Cell::styled('y', s.clone()).style, s);
}
