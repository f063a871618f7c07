use tern::measure::{display_width, measure_wrapped, symmetric_diff_len, visible_children, ReconcileCounters};
use tern::scene::{NodeId, NodeKind, PropValue, Scene};
use tern::style::Style;

#[test]
fn display_width_counts_cells() {
    assert_eq!(display_width(""), 0);
    assert_eq!(display_width("abc"), 3);
    assert_eq!(display_width("日本"), 4);
}

#[test]
fn display_width_keeps_clusters_whole() {
    // A ZWJ family emoji is one two-column cluster.
    assert_eq!(display_width("👨\u{200d}👩\u{200d}👧"), 2);
    // A combining sequence is one column.
    assert_eq!(display_width("e\u{301}"), 1);
}

#[test]
fn display_width_ignores_escapes() {
    assert_eq!(display_width("\x1b[31mred\x1b[0m"), 3);
}

#[test]
fn measure_wrapped_empty_is_zero() {
    assert_eq!(measure_wrapped("", 10), (0, 0));
}

#[test]
fn measure_wrapped_fits_one_row() {
    assert_eq!(measure_wrapped("hello world", 20), (11, 1));
}

#[test]
fn measure_wrapped_wraps_whole_words() {
    // The space at the full row's end is dropped; "world" wraps whole.
    assert_eq!(measure_wrapped("hello world", 5), (5, 2));
    assert_eq!(measure_wrapped("aa bb cc", 5), (5, 2));
}

#[test]
fn measure_wrapped_hard_breaks_long_tokens() {
    assert_eq!(measure_wrapped("abcdefgh", 3), (3, 3));
}

#[test]
fn measure_wrapped_honours_newlines() {
    assert_eq!(measure_wrapped("a\nbc", 10), (2, 2));
    assert_eq!(measure_wrapped("a\r\nb", 10), (1, 2));
    assert_eq!(measure_wrapped("a\n", 10), (1, 2));
}

#[test]
fn measure_wrapped_zero_width_is_one() {
    assert_eq!(measure_wrapped("ab", 0), (1, 2));
}

#[test]
fn measure_wrapped_never_splits_a_wide_cluster() {
    // Two-column glyphs at width 3: one per row after the first fills.
    assert_eq!(measure_wrapped("日本語", 3), (2, 3));
    assert_eq!(measure_wrapped("日本語", 4), (4, 2));
}

#[test]
fn measure_wrapped_ignores_escapes() {
    assert_eq!(measure_wrapped("\x1b[1mab\x1b[0m cd", 5), (5, 1));
}

#[test]
fn visible_children_skips_hidden_nodes() {
    let mut scene = Scene::new();
    let root = scene.root_id();
    let a = scene.add_child(root, NodeKind::Box, Style::new()).unwrap();
    let b = scene.add_child(root, NodeKind::Box, Style::new()).unwrap();
    let c = scene.add_child(root, NodeKind::Box, Style::new()).unwrap();
    assert!(scene.set_prop(b, "display", PropValue::Str("none".to_string())));
    assert!(scene.set_prop(c, "display", PropValue::Str("flex".to_string())));
    let node = scene.node(root).unwrap();
    assert_eq!(visible_children(&scene, node), vec![a, c]);
}

#[test]
fn visible_children_of_a_text_leaf_are_absolute_only() {
    let mut scene = Scene::new();
    let root = scene.root_id();
    let t = scene.add_child(root, NodeKind::Text, Style::new()).unwrap();
    let plain = scene.add_child(t, NodeKind::Box, Style::new()).unwrap();
    let abs = scene.add_child(t, NodeKind::Box, Style::new()).unwrap();
    assert!(scene.set_prop(abs, "position", PropValue::Str("absolute".to_string())));
    assert!(scene.set_prop(plain, "position", PropValue::Str("relative".to_string())));
    let node = scene.node(t).unwrap();
    assert_eq!(visible_children(&scene, node), vec![abs]);
}

#[test]
fn symmetric_diff_len_counts_entries_in_one_list_only() {
    let a = [NodeId(1), NodeId(2), NodeId(3)];
    let b = [NodeId(2), NodeId(3), NodeId(4)];
    assert_eq!(symmetric_diff_len(&a, &b), 2);
    assert_eq!(symmetric_diff_len(&a, &a), 0);
    assert_eq!(symmetric_diff_len(&a, &[]), 3);
    assert_eq!(symmetric_diff_len(&[NodeId(5), NodeId(5)], &[]), 2);
}

#[test]
fn reconcile_counters_total_and_rebuild_threshold() {
    let c = ReconcileCounters { changed: 2, created: 1, removed: 5 };
    assert_eq!(c.total(), 8);
    // Removals do not count toward the threshold.
    assert!(!c.wants_full_rebuild(6));
    assert!(c.wants_full_rebuild(5));
    let zero = ReconcileCounters::default();
    assert_eq!(zero.total(), 0);
    assert!(!zero.wants_full_rebuild(0));
}
