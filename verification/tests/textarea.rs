use tern::scene::{NodeId, NodeKind, PropValue, Scene};
use tern::textarea::{Key, KeyAction, Textarea};
use tern::wrap::{wrap_line, wrap_line_with_offsets};

// --- wrap_line -------------------------------------------------------------

#[test]
fn wrap_breaks_at_width_and_keeps_tokens_whole() {
    assert_eq!(wrap_line("hello world", 5), vec!["hello", "world"]);
    assert_eq!(wrap_line("hello world", 11), vec!["hello world"]);
    assert_eq!(wrap_line("abcdef", 3), vec!["abc", "def"]);
    assert_eq!(wrap_line("ab cd", 3), vec!["ab ", "cd"]);
    assert_eq!(wrap_line("", 5), vec![""]);
    assert_eq!(wrap_line("  ", 3), vec!["  "]);
    assert_eq!(wrap_line("a\nb", 5), vec!["a", "b"]);
    assert_eq!(wrap_line("aコb", 3), vec!["aコ", "b"]);
}

#[test]
fn wrap_offsets_point_at_the_first_char_of_each_row() {
    let rows = wrap_line_with_offsets("hello world", 5);
    assert_eq!(rows, vec![("hello".to_string(), 0), ("world".to_string(), 6)]);
    let hard = wrap_line_with_offsets("abcdef", 3);
    assert_eq!(hard, vec![("abc".to_string(), 0), ("def".to_string(), 3)]);
    assert_eq!(wrap_line_with_offsets("", 4), vec![(String::new(), 0)]);
}

#[test]
fn wrap_with_zero_width_behaves_as_width_one() {
    assert_eq!(wrap_line("ab", 0), vec!["a", "b"]);
}

// --- construction + editing ------------------------------------------------

#[test]
fn with_value_splits_lines_and_places_caret_at_end() {
    let ta = Textarea::with_value("ab\ncd");
    assert_eq!(ta.lines, vec!["ab", "cd"]);
    assert_eq!(ta.row, 1);
    assert_eq!(ta.col, 2);
    assert_eq!(ta.text(), "ab\ncd");
}

#[test]
fn insert_char_at_cursor_advances() {
    let mut ta = Textarea::with_value("ab\ncd");
    ta.row = 0;
    ta.col = 1;
    ta.insert_char('X');
    assert_eq!(ta.lines, vec!["aXb", "cd"]);
    assert_eq!(ta.col, 2);
    let mut empty = Textarea::new();
    empty.insert_char('h');
    assert_eq!(empty.lines, vec!["h"]);
    assert_eq!(empty.col, 1);
}

#[test]
fn delete_backward_removes_and_joins_lines() {
    let mut ta = Textarea::with_value("ab\ncd");
    ta.row = 1;
    ta.col = 1;
    ta.delete_backward();
    assert_eq!(ta.lines, vec!["ab", "d"]);
    assert_eq!(ta.col, 0);
    let mut join = Textarea::with_value("ab\ncd");
    join.row = 1;
    join.col = 0;
    join.delete_backward();
    assert_eq!(join.lines, vec!["abcd"]);
    assert_eq!(join.row, 0);
    assert_eq!(join.col, 2);
    let mut top = Textarea::with_value("x");
    top.row = 0;
    top.col = 0;
    top.delete_backward();
    assert_eq!(top.lines, vec!["x"]);
}

#[test]
fn delete_forward_removes_and_joins_next_line() {
    let mut ta = Textarea::with_value("ab\ncd");
    ta.row = 0;
    ta.col = 1;
    ta.delete_forward();
    assert_eq!(ta.lines, vec!["a", "cd"]);
    let mut join = Textarea::with_value("ab\ncd");
    join.row = 0;
    join.col = 2;
    join.delete_forward();
    assert_eq!(join.lines, vec!["abcd"]);
    assert_eq!(join.row, 0);
    assert_eq!(join.col, 2);
    let mut bottom = Textarea::with_value("x");
    bottom.move_end();
    bottom.delete_forward();
    assert_eq!(bottom.lines, vec!["x"]);
}

#[test]
fn enter_splits_the_line_and_places_cursor_at_the_tail() {
    let mut ta = Textarea::with_value("ab\ncd");
    ta.row = 0;
    ta.col = 1;
    ta.split_line();
    assert_eq!(ta.lines, vec!["a", "b", "cd"]);
    assert_eq!(ta.row, 1);
    assert_eq!(ta.col, 0);
    let mut blank = Textarea::new();
    blank.split_line();
    assert_eq!(blank.lines, vec!["", ""]);
    assert_eq!(blank.row, 1);
    assert_eq!(blank.col, 0);
}

#[test]
fn handle_key_maps_edits_and_actions() {
    let mut ta = Textarea::with_value("hi");
    assert_eq!(ta.handle_key(Key::Char('!')), KeyAction::NoAction);
    assert_eq!(ta.lines, vec!["hi!"]);
    assert_eq!(ta.handle_key(Key::Enter), KeyAction::NoAction);
    assert_eq!(ta.lines, vec!["hi!", ""]);
    assert_eq!(ta.row, 1);
    assert_eq!(ta.handle_key(Key::Backspace), KeyAction::NoAction);
    assert_eq!(ta.lines, vec!["hi!"]);
    assert_eq!(ta.handle_key(Key::Escape), KeyAction::Cancel);
    assert_eq!(ta.handle_key(Key::Tab), KeyAction::NoAction);
}

#[test]
fn clear_empties_the_field_and_homes_the_caret() {
    let mut ta = Textarea::with_value("one\ntwo");
    ta.clear();
    assert_eq!(ta.lines, vec![""]);
    assert_eq!((ta.row, ta.col), (0, 0));
    assert_eq!(ta.text(), "");
}

#[test]
fn delete_key_deletes_forward() {
    let mut ta = Textarea::with_value("ab");
    ta.move_home();
    assert_eq!(ta.handle_key(Key::Delete), KeyAction::NoAction);
    assert_eq!(ta.lines, vec!["b"]);
}

// --- navigation --------------------------------------------------------------

#[test]
fn left_right_home_end_navigate_with_wrap_around() {
    let mut ta = Textarea::with_value("ab\ncd");
    ta.row = 1;
    ta.col = 0;
    ta.move_left();
    assert_eq!((ta.row, ta.col), (0, 2));
    ta.move_right();
    assert_eq!((ta.row, ta.col), (1, 0));
    ta.move_end();
    assert_eq!((ta.row, ta.col), (1, 2));
    ta.move_home();
    assert_eq!((ta.row, ta.col), (1, 0));
    ta.move_left();
    assert_eq!((ta.row, ta.col), (0, 2));
    ta.move_left();
    assert_eq!((ta.row, ta.col), (0, 1));
    ta.move_left();
    assert_eq!((ta.row, ta.col), (0, 0));
    ta.move_left();
    assert_eq!((ta.row, ta.col), (0, 0));
}

#[test]
fn up_down_traverse_soft_wrapped_display_lines() {
    let mut ta = Textarea::with_value("hello world").with_width(5);
    assert_eq!(ta.wrapped(0), vec!["hello", "world"]);
    assert_eq!(ta.caret_display_row(), 1);
    ta.move_up();
    assert_eq!((ta.row, ta.col), (0, 5));
    ta.move_down();
    assert_eq!((ta.row, ta.col), (0, 11));
    ta.move_up();
    ta.move_up();
    assert_eq!((ta.row, ta.col), (0, 5));
    ta.move_end();
    ta.move_down();
    assert_eq!((ta.row, ta.col), (0, 11));
}

#[test]
fn up_down_move_between_logical_lines_at_wrap_points() {
    let mut ta = Textarea::with_value("alpha beta\ngamma delta").with_width(5);
    assert_eq!(ta.total_display_rows(), 4);
    ta.move_up();
    assert_eq!((ta.row, ta.col), (1, 5));
    ta.move_up();
    assert_eq!((ta.row, ta.col), (0, 10));
    ta.move_up();
    assert_eq!((ta.row, ta.col), (0, 5));
    ta.move_down();
    assert_eq!((ta.row, ta.col), (0, 10));
}

#[test]
fn preferred_column_is_preserved_across_a_vertical_run() {
    let mut ta = Textarea::with_value("alpha beta\ngamma").with_width(5);
    ta.move_up();
    assert_eq!((ta.row, ta.col), (0, 10));
    ta.move_down();
    assert_eq!((ta.row, ta.col), (1, 5));
    ta.move_home();
    ta.move_up();
    assert_eq!((ta.row, ta.col), (0, 6));
}

#[test]
fn display_column_counts_wide_glyphs_twice() {
    let ta = Textarea::with_value("aコb");
    assert_eq!(ta.current_display_col(), 4);
    assert_eq!(ta.caret_display_row(), 0);
}

// --- scrolling ---------------------------------------------------------------

#[test]
fn scroll_to_caret_keeps_the_caret_inside_the_window() {
    let mut ta = Textarea::with_value("1\n2\n3\n4\n5").with_height(2);
    ta.row = 0;
    ta.col = 0;
    assert_eq!(ta.scroll, 0);
    ta.move_down();
    assert_eq!(ta.scroll, 0);
    ta.move_down();
    assert_eq!(ta.scroll, 1);
    ta.move_up();
    assert_eq!(ta.scroll, 1);
    ta.move_up();
    assert_eq!(ta.scroll, 0);
    let mut open = Textarea::with_value("1\n2\n3\n4\n5");
    open.move_down();
    open.move_down();
    assert_eq!(open.scroll, 0);
}

// --- laws on concrete values -------------------------------------------------

#[test]
fn split_then_backspace_restores_the_text() {
    let mut ta = Textarea::with_value("hello\nworld");
    ta.row = 0;
    ta.col = 3;
    let before = ta.lines.clone();
    ta.split_line();
    ta.delete_backward();
    assert_eq!(ta.lines, before);
    assert_eq!((ta.row, ta.col), (0, 3));
}

#[test]
fn insert_then_backspace_restores_the_text() {
    let mut ta = Textarea::with_value("abc");
    ta.row = 0;
    ta.col = 1;
    ta.insert_char('z');
    ta.delete_backward();
    assert_eq!(ta.lines, vec!["abc"]);
    assert_eq!(ta.col, 1);
}

#[test]
fn text_and_with_value_round_trip() {
    for s in ["", "a", "one\ntwo\n", "x\n\ny"] {
        assert_eq!(Textarea::with_value(s).text(), s);
    }
}

fn leaf_texts(scene: &Scene, parent: NodeId) -> Vec<String> {
    let mut out = Vec::new();
    for c in scene.children(parent).unwrap() {
        match scene.prop(*c, "text") {
            Some(PropValue::Str(s)) => out.push(s.clone()),
            _ => panic!("leaf without text"),
        }
    }
    out
}

#[test]
fn materialize_content_adds_one_leaf_per_display_row() {
    let ta = Textarea::with_value("hello world\nab").with_width(5);
    let mut scene = Scene::new();
    let root = scene.root_id();
    ta.materialize_content(&mut scene, root);
    assert_eq!(leaf_texts(&scene, root), vec!["hello", "world", "ab"]);
    let kids = scene.children(root).unwrap().to_vec();
    for k in &kids {
        assert_eq!(scene.node(*k).unwrap().kind, NodeKind::Text);
        assert_eq!(scene.prop(*k, "width"), Some(&PropValue::Int(5)));
    }
    // The caret sits at the end of "ab": display column 2 of the last row.
    assert_eq!(scene.prop(kids[2], "caret"), Some(&PropValue::Int(2)));
    assert_eq!(scene.prop(kids[0], "caret"), None);
    assert_eq!(scene.prop(kids[1], "caret"), None);
}

#[test]
fn materialize_content_only_adds_the_visible_window() {
    let ta = Textarea::with_value("hello world\nab").with_width(5).with_height(2);
    let mut scene = Scene::new();
    let root = scene.root_id();
    ta.materialize_content(&mut scene, root);
    assert_eq!(leaf_texts(&scene, root), vec!["world", "ab"]);
}

#[test]
fn materialize_content_without_width_or_caret() {
    let ta = Textarea::with_value("one\ntwo").hide_caret();
    let mut scene = Scene::new();
    let root = scene.root_id();
    ta.materialize_content(&mut scene, root);
    assert_eq!(leaf_texts(&scene, root), vec!["one", "two"]);
    for k in scene.children(root).unwrap() {
        assert_eq!(scene.prop(*k, "caret"), None);
        assert_eq!(scene.prop(*k, "width"), None);
    }
}

/// The frame node the textarea's leaves hang under: a column box.
fn frame(scene: &mut Scene, parent: NodeId) -> NodeId {
    let id = scene.add_child(parent, NodeKind::Box, tern::style::Style::new()).unwrap();
    assert!(scene.set_prop(id, "flex_direction", PropValue::Str("column".to_string())));
    id
}

fn materialize(ta: &Textarea, scene: &mut Scene, parent: NodeId) -> NodeId {
    let id = frame(scene, parent);
    ta.materialize_content(scene, id);
    id
}

#[test]
fn materialize_creates_one_leaf_per_display_line_with_caret() {
    let mut scene = Scene::new();
    let root = scene.root_id();
    let mut ta = Textarea::with_value("ab\ncd");
    ta.row = 1;
    let id = materialize(&ta, &mut scene, root);

    assert_eq!(scene.node(id).unwrap().kind, NodeKind::Box);
    assert_eq!(
        scene.node(id).unwrap().props.get("flex_direction"),
        Some(&PropValue::Str("column".to_string()))
    );
    let children = scene.children(id).unwrap();
    assert_eq!(children.len(), 2);
    // Line 0 has no caret; line 1 (the caret's line) carries it.
    assert_eq!(scene.prop(children[0], "text"), Some(&PropValue::Str("ab".to_string())));
    assert!(scene.prop(children[0], "caret").is_none());
    assert_eq!(scene.prop(children[1], "text"), Some(&PropValue::Str("cd".to_string())));
    assert_eq!(scene.prop(children[1], "caret"), Some(&PropValue::Int(2)));
}

#[test]
fn materialize_wraps_long_lines_into_multiple_leaves() {
    let mut scene = Scene::new();
    let root = scene.root_id();
    let mut ta = Textarea::with_value("hello world").with_width(5);
    ta.row = 0;
    let id = materialize(&ta, &mut scene, root);
    let children = scene.children(id).unwrap();
    assert_eq!(children.len(), 2);
    assert_eq!(scene.prop(children[0], "text"), Some(&PropValue::Str("hello".to_string())));
    assert_eq!(scene.prop(children[1], "text"), Some(&PropValue::Str("world".to_string())));
    // The caret (end of "hello world") sits at display col 5 of "world".
    assert_eq!(scene.prop(children[1], "caret"), Some(&PropValue::Int(5)));
    assert!(scene.prop(children[0], "caret").is_none());
    // Each leaf is sized to the wrap width.
    assert_eq!(scene.prop(children[0], "width"), Some(&PropValue::Int(5)));
}

#[test]
fn materialize_only_paints_the_visible_window() {
    let mut scene = Scene::new();
    let root = scene.root_id();
    let mut ta = Textarea::with_value("1\n2\n3\n4\n5").with_height(2);
    ta.scroll = 2;
    ta.row = 3;
    let id = materialize(&ta, &mut scene, root);
    let children = scene.children(id).unwrap();
    assert_eq!(children.len(), 2);
    assert_eq!(scene.prop(children[0], "text"), Some(&PropValue::Str("3".to_string())));
    assert_eq!(scene.prop(children[1], "text"), Some(&PropValue::Str("4".to_string())));
    assert_eq!(scene.prop(children[1], "caret"), Some(&PropValue::Int(1)));
}

#[test]
fn hidden_caret_paints_no_caret_prop() {
    let mut scene = Scene::new();
    let root = scene.root_id();
    let mut ta = Textarea::with_value("ab\ncd").hide_caret();
    ta.row = 1;
    let id = materialize(&ta, &mut scene, root);
    let children = scene.children(id).unwrap();
    assert!(scene.prop(children[1], "caret").is_none());
}

#[test]
fn every_wrapped_line_fits_the_width() {
    for width in 1..8 {
        for row in wrap_line("the quick brown fox コンニチハ jumps", width) {
            let cols: usize = row
                .chars()
                .map(|c| if c == ' ' { 1 } else { tern::cell::char_width(c) as usize })
                .sum();
            assert!(cols <= width, "{:?} at width {}", row, width);
        }
    }
}

#[test]
fn with_lines_of_nothing_holds_one_empty_line() {
    let mut t = Textarea::with_lines(Vec::new());
    assert_eq!(t.lines, vec![String::new()]);
    assert_eq!((t.row, t.col), (0, 0));
    t.handle_key(Key::Char('x'));
    assert_eq!(t.text(), "x");
}

#[test]
fn with_lines_puts_the_cursor_at_the_end_of_the_last_line() {
    let t = Textarea::with_lines(vec!["ab".to_string(), "cde".to_string()]);
    assert_eq!((t.row, t.col), (1, 3));
}
