use tern::color::Color;
use tern::rect::Rect;
use tern::scene::{FloatBits, NodeId, NodeKind, PropMap, PropValue, Scene, Span};
use tern::semantics::{SemanticsNode, SemanticsRole};
use tern::style::{BorderStyle, Modifiers, Style};

fn props(pairs: &[(&str, PropValue)]) -> PropMap {
    let mut m = PropMap::new();
    for (k, v) in pairs {
        m.insert(k.to_string(), v.clone());
    }
    m
}

fn span(text: &str, style: Style) -> Span {
    Span { text: text.to_string(), style }
}

#[test]
fn scene_has_implicit_root() {
    let scene = Scene::new();
    let root = scene.root_id();
    let n = scene.node(root).unwrap();
    assert_eq!(n.kind, NodeKind::Root);
    assert!(n.children.is_empty());
    assert_eq!(n.parent, None);
    assert_eq!(scene.len(), 1);
    assert!(!scene.is_empty());
}

#[test]
fn add_child_links_parent_and_children() {
    let mut scene = Scene::new();
    let root = scene.root_id();
    let a = scene.add_child(root, NodeKind::Box, Style::new()).unwrap();
    let b = scene
        .add_child(root, NodeKind::Text, Style::new().fg(Color::Rgb(1, 2, 3)))
        .unwrap();
    assert_ne!(a, b);
    assert_eq!(scene.node(a).unwrap().parent, Some(root));
    assert_eq!(scene.node(b).unwrap().style.fg, Color::Rgb(1, 2, 3));
    assert_eq!(scene.children(root).unwrap(), &[a, b]);

    let c = scene.add_child(a, NodeKind::Box, Style::new()).unwrap();
    assert_eq!(scene.children(a).unwrap(), &[c]);
    assert!(scene.is_descendant(c, root));
    assert!(scene.is_descendant(c, a));
    assert!(!scene.is_descendant(b, a));
    assert_eq!(scene.len(), 4);
}

#[test]
fn add_child_missing_parent_returns_none() {
    let mut scene = Scene::new();
    assert!(scene.add_child(NodeId(999), NodeKind::Box, Style::new()).is_none());
}

#[test]
fn insert_child_at_head_middle_and_tail() {
    let mut scene = Scene::new();
    let root = scene.root_id();
    let a = scene.add_child(root, NodeKind::Box, Style::new()).unwrap();
    let b = scene.add_child(root, NodeKind::Box, Style::new()).unwrap();
    let c = scene.add_child(root, NodeKind::Box, Style::new()).unwrap();
    assert_eq!(scene.children(root).unwrap(), &[a, b, c]);

    let h = scene.insert_child(root, 0, NodeKind::Text, Style::new()).unwrap();
    assert_eq!(scene.children(root).unwrap(), &[h, a, b, c]);

    let t = scene.insert_child(root, 4, NodeKind::Text, Style::new()).unwrap();
    assert_eq!(scene.children(root).unwrap(), &[h, a, b, c, t]);

    let m = scene.insert_child(root, 2, NodeKind::Text, Style::new()).unwrap();
    assert_eq!(scene.children(root).unwrap(), &[h, a, m, b, c, t]);

    for id in [h, a, m, b, c, t] {
        assert_eq!(scene.node(id).unwrap().parent, Some(root));
    }
    assert_eq!(scene.len(), 7);
}

#[test]
fn insert_child_clamps_index_beyond_len() {
    let mut scene = Scene::new();
    let root = scene.root_id();
    let a = scene.add_child(root, NodeKind::Box, Style::new()).unwrap();
    let b = scene.add_child(root, NodeKind::Box, Style::new()).unwrap();
    assert_eq!(scene.children(root).unwrap(), &[a, b]);
    let t = scene.insert_child(root, 10, NodeKind::Text, Style::new()).unwrap();
    assert_eq!(scene.children(root).unwrap(), &[a, b, t]);
}

#[test]
fn insert_child_after_remove_fills_the_gap() {
    let mut scene = Scene::new();
    let root = scene.root_id();
    let a = scene.add_child(root, NodeKind::Box, Style::new()).unwrap();
    let b = scene.add_child(root, NodeKind::Box, Style::new()).unwrap();
    let c = scene.add_child(root, NodeKind::Box, Style::new()).unwrap();
    assert_eq!(scene.children(root).unwrap(), &[a, b, c]);

    assert!(scene.remove(b));
    assert_eq!(scene.children(root).unwrap(), &[a, c]);

    let b2 = scene.insert_child(root, 1, NodeKind::Box, Style::new()).unwrap();
    assert_eq!(scene.children(root).unwrap(), &[a, b2, c]);
    assert_eq!(scene.node(b2).unwrap().parent, Some(root));
    assert_ne!(b2, b);
}

#[test]
fn insert_child_missing_parent_returns_none() {
    let mut scene = Scene::new();
    assert!(scene.insert_child(NodeId(999), 0, NodeKind::Box, Style::new()).is_none());
    assert_eq!(scene.len(), 1);
}

#[test]
fn root_can_never_be_inserted_into_children() {
    let mut scene = Scene::new();
    let root = scene.root_id();
    let a = scene.add_child(root, NodeKind::Box, Style::new()).unwrap();
    assert!(scene.insert_child(a, 0, NodeKind::Root, Style::new()).is_none());
    assert!(scene.insert_child(root, 0, NodeKind::Root, Style::new()).is_none());
    assert_eq!(scene.children(root).unwrap(), &[a]);
    assert_eq!(scene.len(), 2);
}

#[test]
fn add_text_sets_text_prop() {
    let mut scene = Scene::new();
    let root = scene.root_id();
    let t = scene.add_text(root, "Hello", Style::new()).unwrap();
    assert_eq!(scene.node(t).unwrap().kind, NodeKind::Text);
    assert_eq!(scene.prop(t, "text"), Some(&PropValue::Str("Hello".to_string())));
}

#[test]
fn remove_leaf_detaches_from_parent() {
    let mut scene = Scene::new();
    let root = scene.root_id();
    let a = scene.add_child(root, NodeKind::Box, Style::new()).unwrap();
    let b = scene.add_child(root, NodeKind::Text, Style::new()).unwrap();

    assert!(scene.remove(b));
    assert!(scene.node(b).is_none());
    assert_eq!(scene.children(root).unwrap(), &[a]);
    assert!(!scene.remove(b));
    assert!(!scene.remove(root));
    assert!(scene.node(root).is_some());
    assert!(scene.remove(a));
    assert!(scene.children(root).unwrap().is_empty());
}

#[test]
fn remove_subtree_removes_descendants() {
    let mut scene = Scene::new();
    let root = scene.root_id();
    let a = scene.add_child(root, NodeKind::Box, Style::new()).unwrap();
    let b = scene.add_child(a, NodeKind::Box, Style::new()).unwrap();
    let c = scene.add_child(b, NodeKind::Text, Style::new()).unwrap();
    let d = scene.add_child(a, NodeKind::Text, Style::new()).unwrap();

    assert!(scene.remove(a));
    assert!(scene.node(a).is_none());
    assert!(scene.node(b).is_none());
    assert!(scene.node(c).is_none());
    assert!(scene.node(d).is_none());
    assert!(scene.children(root).unwrap().is_empty());
    assert_eq!(scene.len(), 1);
}

#[test]
fn remove_keeps_siblings_and_cousins() {
    let mut scene = Scene::new();
    let root = scene.root_id();
    let a = scene.add_child(root, NodeKind::Box, Style::new()).unwrap();
    let b = scene.add_child(root, NodeKind::Box, Style::new()).unwrap();
    let a1 = scene.add_child(a, NodeKind::Text, Style::new()).unwrap();
    let b1 = scene.add_child(b, NodeKind::Text, Style::new()).unwrap();
    assert!(scene.remove(a));
    assert!(scene.node(a1).is_none());
    assert_eq!(scene.node(b1).unwrap().parent, Some(b));
    assert_eq!(scene.children(root).unwrap(), &[b]);
    assert_eq!(scene.len(), 3);
}

#[test]
fn update_ops_change_kind_style_props() {
    let mut scene = Scene::new();
    let root = scene.root_id();
    let t = scene.add_text(root, "x", Style::new()).unwrap();

    assert!(scene.set_style(t, Style::new().fg(Color::Indexed(9)).border_style(BorderStyle::Rounded)));
    assert_eq!(scene.node(t).unwrap().style.fg, Color::Indexed(9));
    assert_eq!(scene.node(t).unwrap().style.border_style, BorderStyle::Rounded);

    assert!(scene.set_kind(t, NodeKind::Box));
    assert_eq!(scene.node(t).unwrap().kind, NodeKind::Box);

    assert!(scene.set_prop(t, "width", PropValue::Int(10)));
    assert_eq!(scene.prop(t, "width"), Some(&PropValue::Int(10)));

    let p = props(&[("a", PropValue::Bool(true))]);
    assert!(scene.update(t, None, Some(Style::new().bg(Color::Rgb(1, 2, 3))), Some(p)));
    let n = scene.node(t).unwrap();
    assert_eq!(n.style.bg, Color::Rgb(1, 2, 3));
    assert_eq!(n.props.len(), 1);
    assert_eq!(n.props.get("a"), Some(&PropValue::Bool(true)));

    assert!(!scene.set_style(NodeId(4242), Style::new()));
    assert!(!scene.set_kind(NodeId(4242), NodeKind::Box));
    assert!(!scene.set_prop(NodeId(4242), "x", PropValue::Bool(true)));
    assert!(!scene.update(NodeId(4242), None, None, None));
    assert!(scene.prop(NodeId(4242), "x").is_none());
}

#[test]
fn node_ids_are_unique() {
    let mut scene = Scene::new();
    let root = scene.root_id();
    let mut ids = vec![root];
    for _ in 0..100 {
        let id = scene.add_child(root, NodeKind::Text, Style::new()).unwrap();
        assert!(!ids.contains(&id));
        ids.push(id);
    }
}

#[test]
fn append_span_accumulates_in_order() {
    let mut scene = Scene::new();
    let root = scene.root_id();
    let s = scene.add_child(root, NodeKind::StreamingText, Style::new()).unwrap();
    assert!(scene.append_span(s, span("Hel", Style::new())));
    assert!(scene.append_span(s, span("lo", Style::new())));
    assert!(scene.append_span(s, span("!", Style::new())));
    let stream = scene.stream(s).unwrap();
    let texts: Vec<&str> = stream.iter().map(|sp| sp.text.as_str()).collect();
    assert_eq!(texts, ["Hel", "lo", "!"]);
}

#[test]
fn append_span_preserves_per_span_styles() {
    let mut scene = Scene::new();
    let root = scene.root_id();
    let s = scene.add_child(root, NodeKind::StreamingText, Style::new()).unwrap();
    let red = Style::new().fg(Color::Rgb(255, 0, 0));
    let bold = Style::new().add_modifier(Modifiers::bold());
    assert!(scene.append_span(s, span("red", red)));
    assert!(scene.append_span(s, span("bold", bold)));
    let stream = scene.stream(s).unwrap();
    assert_eq!(stream[0].style.fg, Color::Rgb(255, 0, 0));
    assert!(!stream[0].style.modifiers.contains(Modifiers::bold()));
    assert!(stream[1].style.modifiers.contains(Modifiers::bold()));
    assert_eq!(stream[1].style.fg, Color::Default);
}

#[test]
fn append_span_keeps_multi_width_chars_intact() {
    let mut scene = Scene::new();
    let root = scene.root_id();
    let s = scene.add_child(root, NodeKind::StreamingText, Style::new()).unwrap();
    assert!(scene.append_span(s, span("コ", Style::new())));
    assert!(scene.append_span(s, span("abc", Style::new())));
    let stream = scene.stream(s).unwrap();
    assert_eq!(stream.len(), 2);
    assert_eq!(stream[0].text, "コ");
    assert_eq!(stream[1].text, "abc");
}

#[test]
fn append_span_rejects_missing_and_non_streaming_nodes() {
    let mut scene = Scene::new();
    let root = scene.root_id();
    let t = scene.add_text(root, "plain", Style::new()).unwrap();
    let sp = span("x", Style::new());
    assert!(!scene.append_span(NodeId(999), sp.clone()));
    assert!(!scene.append_span(t, sp.clone()));
    assert!(scene.stream(NodeId(999)).is_none());
    assert!(scene.stream(t).is_none());
}

#[test]
fn remove_detaches_node_and_its_stream() {
    let mut scene = Scene::new();
    let root = scene.root_id();
    let s = scene.add_child(root, NodeKind::StreamingText, Style::new()).unwrap();
    assert!(scene.append_span(s, span("gone", Style::new())));
    assert_eq!(scene.stream(s).unwrap().len(), 1);
    assert!(scene.remove(s));
    assert!(scene.node(s).is_none());
    assert!(scene.stream(s).is_none());
    assert!(scene.children(root).unwrap().is_empty());
}

#[test]
fn clip_rect_defaults_to_none() {
    let mut scene = Scene::new();
    let root = scene.root_id();
    let b = scene.add_child(root, NodeKind::Box, Style::new()).unwrap();
    assert_eq!(scene.clip_rect(b), None);
    assert_eq!(scene.clip_rect(NodeId(999)), None);
}

#[test]
fn clip_rect_roundtrips_via_props() {
    let mut scene = Scene::new();
    let root = scene.root_id();
    let b = scene.add_child(root, NodeKind::Box, Style::new()).unwrap();
    assert!(scene.set_clip_rect(b, Rect::new(2, 3, 10, 5)));
    assert_eq!(scene.clip_rect(b), Some(Rect::new(2, 3, 10, 5)));
    assert_eq!(scene.prop(b, "clip_x"), Some(&PropValue::Int(2)));
    assert_eq!(scene.prop(b, "clip_height"), Some(&PropValue::Int(5)));
    assert!(!scene.set_clip_rect(NodeId(999), Rect::new(0, 0, 1, 1)));
}

#[test]
fn clip_rect_rejects_negative_dimensions() {
    let mut scene = Scene::new();
    let root = scene.root_id();
    let b = scene.add_child(root, NodeKind::Box, Style::new()).unwrap();
    scene.set_prop(b, "clip_x", PropValue::Int(0));
    scene.set_prop(b, "clip_y", PropValue::Int(0));
    scene.set_prop(b, "clip_width", PropValue::Int(-4));
    scene.set_prop(b, "clip_height", PropValue::Int(2));
    assert_eq!(scene.clip_rect(b), None);
}

#[test]
fn scroll_offset_defaults_and_roundtrips() {
    let mut scene = Scene::new();
    let root = scene.root_id();
    let b = scene.add_child(root, NodeKind::Box, Style::new()).unwrap();
    assert_eq!(scene.scroll_offset(b), (0, 0));
    assert_eq!(scene.scroll_offset(NodeId(999)), (0, 0));
    assert!(scene.set_scroll_offset(b, 4, -2));
    assert_eq!(scene.scroll_offset(b), (4, -2));
    assert_eq!(scene.prop(b, "scroll_x"), Some(&PropValue::Int(4)));
    assert_eq!(scene.prop(b, "scroll_y"), Some(&PropValue::Int(-2)));
    assert!(!scene.set_scroll_offset(NodeId(999), 1, 1));
}

#[test]
fn epoch_starts_at_zero_and_bumps_on_every_mutation() {
    let mut scene = Scene::new();
    assert_eq!(scene.epoch(), 0, "a fresh scene has epoch 0");
    let root = scene.root_id();
    let mut next = 0;
    let mut expect = |scene: &Scene, label: &str| {
        next += 1;
        assert_eq!(scene.epoch(), next, "{label} must bump the epoch");
    };

    let a = scene.add_child(root, NodeKind::Box, Style::new()).expect("add_child succeeds");
    expect(&scene, "add_child");
    let b = scene.insert_child(root, 0, NodeKind::Text, Style::new()).expect("insert_child succeeds");
    expect(&scene, "insert_child");
    scene.set_style(a, Style::new().fg(Color::Rgb(9, 9, 9)));
    expect(&scene, "set_style");
    scene.set_kind(a, NodeKind::Text);
    expect(&scene, "set_kind");
    scene.set_prop(a, "width", PropValue::Int(10));
    expect(&scene, "set_prop");
    scene.set_props(a, PropMap::new());
    expect(&scene, "set_props");
    scene.update(a, Some(NodeKind::Box), None, None);
    expect(&scene, "update");
    assert!(scene.set_clip_rect(a, Rect::new(0, 0, 4, 4)));
    expect(&scene, "set_clip_rect");
    assert!(scene.set_scroll_offset(a, 1, 1));
    expect(&scene, "set_scroll_offset");
    let s = scene.add_child(root, NodeKind::StreamingText, Style::new()).expect("add streaming node");
    expect(&scene, "add_child (streaming)");
    assert!(scene.append_span(s, span("x", Style::new())));
    expect(&scene, "append_span");
    assert!(scene.remove(b));
    expect(&scene, "remove");
    let node = scene.node_mut(a).expect("node exists");
    node.props.insert("z".to_string(), PropValue::Int(1));
    expect(&scene, "node_mut");
}

#[test]
fn epoch_does_not_bump_on_failed_operations() {
    let mut scene = Scene::new();
    let root = scene.root_id();
    let t = scene.add_text(root, "x", Style::new()).unwrap();
    let epoch = scene.epoch();

    assert!(scene.add_child(NodeId(999), NodeKind::Box, Style::new()).is_none());
    assert!(scene.insert_child(NodeId(999), 0, NodeKind::Box, Style::new()).is_none());
    assert!(!scene.remove(root));
    assert!(!scene.remove(NodeId(999)));
    assert!(!scene.set_style(NodeId(999), Style::new()));
    assert!(!scene.set_kind(NodeId(999), NodeKind::Box));
    assert!(!scene.set_prop(NodeId(999), "x", PropValue::Bool(true)));
    assert!(!scene.set_props(NodeId(999), PropMap::new()));
    assert!(!scene.update(NodeId(999), None, None, None));
    assert!(!scene.set_clip_rect(NodeId(999), Rect::new(0, 0, 1, 1)));
    assert!(!scene.set_scroll_offset(NodeId(999), 1, 1));
    assert!(!scene.append_span(NodeId(999), span("x", Style::new())));
    assert!(!scene.append_span(t, span("x", Style::new())));
    assert_eq!(scene.epoch(), epoch, "no-op mutations must not bump");
}

#[test]
fn equal_value_prop_writes_do_not_bump_epoch() {
    let mut scene = Scene::new();
    let root = scene.root_id();
    let t = scene.add_text(root, "x", Style::new()).unwrap();
    let epoch = scene.epoch();

    assert!(scene.set_prop(t, "text", PropValue::Str("x".to_string())));
    assert!(scene.set_prop(t, "text", PropValue::Str("x".to_string())));
    assert_eq!(scene.epoch(), epoch, "equal set_prop must not bump");

    let p = props(&[("text", PropValue::Str("x".to_string()))]);
    assert!(scene.set_props(t, p.clone()));
    assert!(scene.set_props(t, p));
    assert_eq!(scene.epoch(), epoch, "equal set_props must not bump");

    assert!(scene.set_style(t, Style::new()));
    assert_eq!(scene.epoch(), epoch, "equal set_style must not bump");

    let before = scene.epoch();
    assert!(scene.set_prop(t, "text", PropValue::Str("y".to_string())));
    assert_eq!(scene.epoch(), before + 1, "changed set_prop must bump");
    assert_eq!(scene.prop(t, "text"), Some(&PropValue::Str("y".to_string())));

    let before = scene.epoch();
    assert!(scene.set_props(t, props(&[("a", PropValue::Int(1))])));
    assert_eq!(scene.epoch(), before + 1, "changed set_props must bump");
    assert!(scene.prop(t, "text").is_none(), "set_props replaces the map");

    let before = scene.epoch();
    assert!(scene.set_style(t, Style::new().fg(Color::Rgb(1, 2, 3))));
    assert_eq!(scene.epoch(), before + 1, "changed set_style must bump");
    assert_eq!(scene.node(t).unwrap().style.fg, Color::Rgb(1, 2, 3));

    let epoch = scene.epoch();
    assert!(scene.set_prop(t, "a", PropValue::Int(1)));
    assert!(scene.set_style(t, Style::new().fg(Color::Rgb(1, 2, 3))));
    assert_eq!(scene.epoch(), epoch, "re-equal writes must not bump");
}

#[test]
fn float_props_compare_as_numbers() {
    let mut scene = Scene::new();
    let root = scene.root_id();
    let b = scene.add_child(root, NodeKind::Box, Style::new()).unwrap();
    let half = FloatBits(0.5f64.to_bits());
    assert!(scene.set_prop(b, "grow", PropValue::Float(half)));
    let epoch = scene.epoch();
    assert!(scene.set_prop(b, "grow", PropValue::Float(half)));
    assert_eq!(scene.epoch(), epoch, "an equal float is an equal write");
    let zero = FloatBits(0.0f64.to_bits());
    let neg_zero = FloatBits((-0.0f64).to_bits());
    assert!(scene.set_prop(b, "z", PropValue::Float(zero)));
    let epoch = scene.epoch();
    assert!(scene.set_prop(b, "z", PropValue::Float(neg_zero)));
    assert_eq!(scene.epoch(), epoch, "-0.0 == 0.0");
    let nan = FloatBits(f64::NAN.to_bits());
    assert!(scene.set_prop(b, "n", PropValue::Float(nan)));
    let epoch = scene.epoch();
    assert!(scene.set_prop(b, "n", PropValue::Float(nan)));
    assert_eq!(scene.epoch(), epoch + 1, "NaN never equals itself");
}

#[test]
fn take_dirty_drains_pushed_ids_and_force_flag() {
    let mut scene = Scene::new();
    let root = scene.root_id();
    let a = scene.add_child(root, NodeKind::Box, Style::new()).unwrap();
    let b = scene.add_child(root, NodeKind::Text, Style::new()).unwrap();
    let s = scene.add_child(root, NodeKind::StreamingText, Style::new()).unwrap();

    scene.set_prop(b, "text", PropValue::Str("x".into()));
    scene.set_clip_rect(a, Rect::new(0, 0, 4, 4));
    scene.set_scroll_offset(a, 1, 1);
    assert!(scene.append_span(s, span("s", Style::new())));

    let (ids, force) = scene.take_dirty();
    assert!(ids.contains(&a));
    assert!(ids.contains(&b));
    assert!(ids.contains(&s));
    assert!(!force);

    let _ = scene.node_mut(a).unwrap();
    let (ids, force) = scene.take_dirty();
    assert!(ids.contains(&a));
    assert!(force);

    let (ids, force) = scene.take_dirty();
    assert!(ids.is_empty());
    assert!(!force);
}

#[test]
fn remove_records_every_subtree_id() {
    let mut scene = Scene::new();
    let root = scene.root_id();
    let a = scene.add_child(root, NodeKind::Box, Style::new()).unwrap();
    let b = scene.add_child(a, NodeKind::Box, Style::new()).unwrap();
    let c = scene.add_child(b, NodeKind::Text, Style::new()).unwrap();
    let _d = scene.add_child(root, NodeKind::Text, Style::new()).unwrap();

    let (_, _) = scene.take_dirty();
    assert!(scene.remove(a));
    let (ids, _) = scene.take_dirty();
    for id in [a, b, c] {
        assert!(ids.contains(&id), "removed subtree id {id:?} must be recorded");
    }
    assert!(!ids.contains(&root));
}

#[test]
fn noop_mutations_do_not_record_dirty() {
    let mut scene = Scene::new();
    let root = scene.root_id();
    let t = scene.add_text(root, "x", Style::new()).unwrap();
    let (_, _) = scene.take_dirty();

    assert!(scene.set_prop(t, "text", PropValue::Str("x".to_string())));
    assert!(scene.set_style(t, Style::new()));
    assert!(scene.set_props(t, props(&[("text", PropValue::Str("x".to_string()))])));

    let (ids, force) = scene.take_dirty();
    assert!(ids.is_empty(), "no-op writes must not record ids (got {ids:?})");
    assert!(!force);

    assert!(scene.set_prop(t, "text", PropValue::Str("y".to_string())));
    let (ids, _) = scene.take_dirty();
    assert!(ids.contains(&t));
}

fn checkbox_node(label: &str) -> SemanticsNode {
    let mut n = SemanticsNode::new(SemanticsRole::Checkbox);
    n.label = Some(label.to_string());
    n
}

#[test]
fn semantics_store_is_off_by_default_and_rejects_writes() {
    let mut scene = Scene::new();
    let root = scene.root_id();
    let a = scene.add_child(root, NodeKind::Box, Style::new()).unwrap();
    let (_, _) = scene.take_dirty();
    let epoch = scene.epoch();

    assert!(!scene.semantics_enabled());
    assert!(!scene.set_semantics(a, checkbox_node("x")));
    assert_eq!(scene.semantics(a), None);
    assert_eq!(scene.semantics_iter().len(), 0);
    assert!(!scene.clear_semantics(a));

    assert_eq!(scene.epoch(), epoch);
    let (ids, force) = scene.take_dirty();
    assert!(ids.is_empty() && !force);
}

#[test]
fn semantics_enable_then_set_get_roundtrip() {
    let mut scene = Scene::new();
    let root = scene.root_id();
    let a = scene.add_child(root, NodeKind::Box, Style::new()).unwrap();

    assert!(scene.set_semantics_enabled(true));
    assert!(scene.semantics_enabled());
    assert_eq!(scene.epoch(), 2);

    let node = checkbox_node("mute");
    assert!(scene.set_semantics(a, node.clone()));
    assert_eq!(scene.semantics(a), Some(&node));
    assert_eq!(scene.semantics_iter().len(), 1);

    assert!(!scene.set_semantics_enabled(true));
    assert_eq!(scene.epoch(), 3);

    let entries: Vec<(NodeId, &SemanticsNode)> = scene.semantics_iter().iter().map(|(id, n)| (*id, n)).collect();
    assert_eq!(entries.len(), 1);
    assert_eq!(entries[0].0, a);
    assert_eq!(entries[0].1, &node);
}

#[test]
fn equal_value_semantics_write_is_noop() {
    let mut scene = Scene::new();
    let root = scene.root_id();
    let a = scene.add_child(root, NodeKind::Box, Style::new()).unwrap();
    scene.set_semantics_enabled(true);
    let node = checkbox_node("mute");
    assert!(scene.set_semantics(a, node.clone()));
    let epoch = scene.epoch();
    assert!(scene.set_semantics(a, node.clone()));
    assert!(scene.set_semantics(a, checkbox_node("mute")));
    assert_eq!(scene.epoch(), epoch);
    assert_eq!(scene.semantics(a), Some(&node));
}

#[test]
fn real_semantics_write_bumps_epoch_but_never_dirty() {
    let mut scene = Scene::new();
    let root = scene.root_id();
    let a = scene.add_child(root, NodeKind::Box, Style::new()).unwrap();
    scene.set_semantics_enabled(true);
    let (_, _) = scene.take_dirty();

    assert!(scene.set_semantics(a, checkbox_node("mute")));
    let epoch = scene.epoch();
    let (ids, force) = scene.take_dirty();
    assert!(ids.is_empty());
    assert!(!force);

    assert!(scene.set_semantics(a, checkbox_node("unmute")));
    assert_eq!(scene.epoch(), epoch + 1);
    let (ids, _) = scene.take_dirty();
    assert!(ids.is_empty());
}

#[test]
fn clear_semantics_removes_the_entry() {
    let mut scene = Scene::new();
    let root = scene.root_id();
    let a = scene.add_child(root, NodeKind::Box, Style::new()).unwrap();
    scene.set_semantics_enabled(true);
    assert!(scene.set_semantics(a, checkbox_node("mute")));

    let epoch = scene.epoch();
    assert!(scene.clear_semantics(a));
    assert_eq!(scene.epoch(), epoch + 1);
    assert_eq!(scene.semantics(a), None);
    assert_eq!(scene.semantics_iter().len(), 0);

    let epoch = scene.epoch();
    assert!(!scene.clear_semantics(a));
    assert!(!scene.clear_semantics(NodeId(999)));
    assert_eq!(scene.epoch(), epoch);
}

#[test]
fn set_semantics_rejects_missing_nodes() {
    let mut scene = Scene::new();
    scene.set_semantics_enabled(true);
    let epoch = scene.epoch();
    assert!(!scene.set_semantics(NodeId(999), checkbox_node("x")));
    assert_eq!(scene.epoch(), epoch);
    assert_eq!(scene.semantics(NodeId(999)), None);
}

#[test]
fn remove_subtree_purges_semantics_of_every_removed_id() {
    let mut scene = Scene::new();
    let root = scene.root_id();
    let a = scene.add_child(root, NodeKind::Box, Style::new()).unwrap();
    let b = scene.add_child(a, NodeKind::Box, Style::new()).unwrap();
    let c = scene.add_child(b, NodeKind::Text, Style::new()).unwrap();
    let d = scene.add_child(root, NodeKind::Text, Style::new()).unwrap();
    scene.set_semantics_enabled(true);
    for id in [a, b, c, d] {
        assert!(scene.set_semantics(id, checkbox_node("x")));
    }
    assert_eq!(scene.semantics_iter().len(), 4);

    assert!(scene.remove(a));
    for id in [a, b, c] {
        assert_eq!(scene.semantics(id), None);
    }
    assert!(scene.semantics(d).is_some());
    assert_eq!(scene.semantics_iter().len(), 1);

    assert!(scene.remove(d));
    assert_eq!(scene.semantics_iter().len(), 0);
}

#[test]
fn disable_gates_writes_but_preserves_entries() {
    let mut scene = Scene::new();
    let root = scene.root_id();
    let a = scene.add_child(root, NodeKind::Box, Style::new()).unwrap();
    scene.set_semantics_enabled(true);
    let node = checkbox_node("mute");
    assert!(scene.set_semantics(a, node.clone()));

    assert!(scene.set_semantics_enabled(false));
    assert!(!scene.semantics_enabled());
    assert!(!scene.set_semantics(a, checkbox_node("other")));
    assert_eq!(scene.semantics(a), Some(&node));
    assert_eq!(scene.semantics_iter().len(), 1);

    assert!(scene.set_semantics_enabled(true));
    assert!(scene.set_semantics(a, checkbox_node("other")));
    assert_eq!(scene.semantics(a).unwrap().label.as_deref(), Some("other"));
}

#[test]
fn prop_maps_compare_by_content() {
    let a = props(&[("x", PropValue::Int(1)), ("y", PropValue::Bool(false))]);
    let b = props(&[("y", PropValue::Bool(false)), ("x", PropValue::Int(1))]);
    assert_eq!(a, b);
    let mut c = a.clone();
    assert_eq!(c.insert("x".to_string(), PropValue::Int(2)), Some(PropValue::Int(1)));
    assert_ne!(a, c);
    assert_eq!(c.len(), 2);
    assert!(c.contains_key("y"));
    assert!(!c.contains_key("z"));
    assert!(PropMap::new().is_empty());
}

#[test]
fn node_ids_lists_every_node_once() {
    let mut scene = Scene::new();
    let root = scene.root_id();
    let a = scene.add_child(root, NodeKind::Box, Style::new()).unwrap();
    let b = scene.add_child(a, NodeKind::Box, Style::new()).unwrap();
    let c = scene.add_child(root, NodeKind::Box, Style::new()).unwrap();
    let mut ids = scene.node_ids();
    ids.sort();
    assert_eq!(ids, vec![root, a, b, c]);
    let mut sub = scene.subtree_ids(a);
    sub.sort();
    assert_eq!(sub, vec![a, b]);
    assert!(scene.remove(a));
    let mut ids = scene.node_ids();
    ids.sort();
    assert_eq!(ids, vec![root, c]);
}
