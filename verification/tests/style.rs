use tern::color::Color;
use tern::style::{BorderStyle, Modifiers, Style, UnderlineStyle};

#[test]
fn modifiers_bit_ops() {
    let m = Modifiers::bold().insert(Modifiers::underline());
    assert!(m.contains(Modifiers::bold()));
    assert!(m.contains(Modifiers::underline()));
    assert!(!m.contains(Modifiers::italic()));
    assert!(!Modifiers::empty().contains(Modifiers::bold()));
    assert!(Modifiers::empty().is_empty());

    let m2 = m.remove(Modifiers::bold());
    assert!(!m2.contains(Modifiers::bold()));
    assert!(m2.contains(Modifiers::underline()));

    assert_eq!(
        Modifiers::bold().union(Modifiers::dim()),
        Modifiers::bold().insert(Modifiers::dim())
    );
    assert!(!Modifiers::bold().contains(Modifiers::dim()));
}

#[test]
fn modifier_bits_are_distinct_flags() {
    let all = [
        Modifiers::bold(),
        Modifiers::dim(),
        Modifiers::italic(),
        Modifiers::underline(),
        Modifiers::blink(),
        Modifiers::reversed(),
        Modifiers::hidden(),
        Modifiers::strikethrough(),
    ];
    for (i, a) in all.iter().enumerate() {
        assert_eq!(a.bits().count_ones(), 1);
        for (j, b) in all.iter().enumerate() {
            assert_eq!(a.contains(*b), i == j);
        }
    }
    assert_eq!(Modifiers::bold().bits(), 1);
    assert_eq!(Modifiers::empty().bits(), 0);
}

#[test]
fn style_default_and_builders() {
    let s = Style::default();
    assert_eq!(s.fg, Color::Default);
    assert_eq!(s.bg, Color::Default);
    assert_eq!(s.border_style, BorderStyle::Borderless);
    assert_eq!(s.border_color, Color::Default);
    assert!(s.hyperlink.is_none());
    assert_eq!(s.underline_style, UnderlineStyle::Unstyled);
    assert!(s.underline_color.is_none());
    assert!(s.modifiers.is_empty());

    let s2 = Style::new()
        .fg(Color::Rgb(1, 2, 3))
        .bg(Color::Indexed(4))
        .add_modifier(Modifiers::bold())
        .border_style(BorderStyle::Double)
        .border_color(Color::Rgb(9, 8, 7));
    assert_eq!(s2.fg, Color::Rgb(1, 2, 3));
    assert_eq!(s2.bg, Color::Indexed(4));
    assert!(s2.modifiers.contains(Modifiers::bold()));
    assert_eq!(s2.border_style, BorderStyle::Double);
    assert_eq!(s2.border_color, Color::Rgb(9, 8, 7));
    assert_eq!(Color::Rgb(1, 2, 3).rgb(), Some((1, 2, 3)));
    assert_eq!(Color::Default.rgb(), None);
}

#[test]
fn modifier_builder_replaces_and_add_modifier_accumulates() {
    let s = Style::new()
        .add_modifier(Modifiers::bold())
        .add_modifier(Modifiers::italic());
    assert!(s.modifiers.contains(Modifiers::bold()));
    assert!(s.modifiers.contains(Modifiers::italic()));
    let r = s.modifier(Modifiers::dim());
    assert_eq!(r.modifiers, Modifiers::dim());
}

#[test]
fn hyperlink_round_trip() {
    let s = Style::new().hyperlink(Some("https://example.com".into()));
    assert_eq!(s.hyperlink.as_deref(), Some("https://example.com"));
    let literal = Style {
        hyperlink: Some("https://example.com".into()),
        ..Style::new()
    };
    assert_eq!(s, literal);
    let cloned = s.clone();
    assert_eq!(cloned.hyperlink.as_deref(), Some("https://example.com"));
}

#[test]
fn hyperlink_participates_in_equality() {
    let a = Style::new().hyperlink(Some("a".into()));
    let b = Style::new().hyperlink(Some("b".into()));
    assert_ne!(a, b, "different hyperlinks differ");

    let linked = Style::new().hyperlink(Some("https://example.com".into()));
    let plain = Style::new();
    assert_ne!(linked, plain, "hyperlink vs none differ");

    let same_a = Style::new().hyperlink(Some("a".into()));
    assert_eq!(a, same_a, "equal hyperlinks are equal");
}

#[test]
fn underline_style_builder_round_trip() {
    let s = Style::new().underline_style(UnderlineStyle::Curly);
    assert_eq!(s.underline_style, UnderlineStyle::Curly);
    let literal = Style {
        underline_style: UnderlineStyle::Curly,
        ..Style::new()
    };
    assert_eq!(s, literal);
    let cloned = s.clone();
    assert_eq!(cloned.underline_style, UnderlineStyle::Curly);
    let variants = [
        UnderlineStyle::Unstyled,
        UnderlineStyle::Single,
        UnderlineStyle::Double,
        UnderlineStyle::Curly,
        UnderlineStyle::Dotted,
        UnderlineStyle::Dashed,
    ];
    for (i, v) in variants.iter().enumerate() {
        for (j, w) in variants.iter().enumerate() {
            if i == j {
                assert_eq!(v, w);
            } else {
                assert_ne!(v, w);
            }
        }
    }
}

#[test]
fn underline_color_builder_round_trip() {
    let s = Style::new().underline_color(Some(Color::Rgb(255, 0, 0)));
    assert_eq!(s.underline_color, Some(Color::Rgb(255, 0, 0)));
    let literal = Style {
        underline_color: Some(Color::Rgb(255, 0, 0)),
        ..Style::new()
    };
    assert_eq!(s, literal);
    let cloned = s.clone();
    assert_eq!(cloned.underline_color, Some(Color::Rgb(255, 0, 0)));
    let cleared = Style::new().underline_color(None);
    assert_eq!(cleared.underline_color, None);
}

#[test]
fn underline_fields_participate_in_equality() {
    let curly = Style::new().underline_style(UnderlineStyle::Curly);
    let double = Style::new().underline_style(UnderlineStyle::Double);
    assert_ne!(curly, double, "different variants differ");
    assert_ne!(curly, Style::new(), "variant vs none differ");

    let curly_again = Style::new().underline_style(UnderlineStyle::Curly);
    assert_eq!(curly, curly_again, "equal variants are equal");

    let red = Style::new().underline_color(Some(Color::Rgb(255, 0, 0)));
    let green = Style::new().underline_color(Some(Color::Rgb(0, 255, 0)));
    assert_ne!(red, Style::new(), "colored underline vs none differ");
    assert_ne!(red, green, "different underline colors differ");
    assert_eq!(red, Style::new().underline_color(Some(Color::Rgb(255, 0, 0))));
}
