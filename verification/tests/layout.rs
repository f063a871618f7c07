use tern::layout::LayoutEngine;
use tern::measure::{
    frame_end, frame_start, orphans, reconcile_plan, FrameEnd, FrameStart, NodeFacts, ReconcileCounters,
};
use tern::rect::{Rect, Size};
use tern::scene::{NodeId, NodeKind, Scene};

/// A trivial engine used to pin the trait's contract.
struct Fixed(Vec<(NodeId, Rect)>);

impl LayoutEngine for Fixed {
    fn compute(&mut self, _root: &Scene, _viewport: Size) -> Vec<(NodeId, Rect)> {
        self.0.clone()
    }
}

#[test]
fn layout_engine_trait_roundtrip() {
    let scene = Scene::new();
    let mut engine = Fixed(vec![(scene.root_id(), Rect::new(0, 0, 80, 24))]);
    let out = engine.compute(&scene, Size::new(80, 24));
    assert_eq!(out.len(), 1);
    assert_eq!(out[0].0, scene.root_id());
    assert_eq!(out[0].1, Rect::new(0, 0, 80, 24));
}

#[test]
fn frame_start_rebuilds_on_a_cold_cache_or_a_fresh_scene() {
    assert_eq!(frame_start(0, 5, 0), FrameStart::FullRebuild);
    assert_eq!(frame_start(3, 2, 7), FrameStart::FullRebuild);
    assert_eq!(frame_start(3, 7, 7), FrameStart::Reconcile);
    assert_eq!(frame_start(3, 9, 7), FrameStart::Reconcile);
}

#[test]
fn orphans_are_the_cached_ids_gone_from_the_scene_in_cache_order() {
    let cached = vec![NodeId(4), NodeId(1), NodeId(9), NodeId(2)];
    let scene = vec![NodeId(1), NodeId(2), NodeId(3)];
    assert_eq!(orphans(&cached, &scene), vec![NodeId(4), NodeId(9)]);
    assert!(orphans(&cached, &cached).is_empty());
    assert_eq!(orphans(&cached, &Vec::new()), cached);
}

#[test]
fn frame_end_rebuilds_when_forced_or_more_than_half_changed() {
    let mut c = ReconcileCounters::default();
    assert_eq!(frame_end(true, c, 10, true), FrameEnd::FullRebuild);
    assert_eq!(frame_end(false, c, 10, true), FrameEnd::Layout);
    assert_eq!(frame_end(false, c, 10, false), FrameEnd::Hidden);
    c.changed = 3;
    c.created = 2;
    c.removed = 40;
    assert_eq!(frame_end(false, c, 10, true), FrameEnd::Layout);
    c.created = 3;
    assert_eq!(frame_end(false, c, 10, true), FrameEnd::FullRebuild);
}

fn facts(kind: NodeKind, content: Option<&str>, children: &[u64]) -> NodeFacts {
    NodeFacts {
        kind,
        content: content.map(|c| c.to_string()),
        wrap: None,
        stream_sig: None,
        children: children.iter().map(|&c| NodeId(c)).collect(),
    }
}

#[test]
fn reconcile_plan_refreshes_exactly_what_changed() {
    let prev = facts(NodeKind::Box, None, &[1, 2, 3]);
    let same = reconcile_plan(&prev, &prev.clone(), false).unwrap();
    assert!(!same.set_style && !same.refresh_content && !same.refresh_wrap && !same.refresh_stream);
    assert!(!same.children_changed);
    assert_eq!(same.structural, 0);
    assert!(same.dropped.is_empty());

    let next = facts(NodeKind::Box, None, &[3, 1, 4]);
    let plan = reconcile_plan(&prev, &next, true).unwrap();
    assert!(plan.set_style);
    assert!(plan.children_changed);
    assert_eq!(plan.structural, 2); // 2 left, 4 arrived
    assert_eq!(plan.dropped, vec![NodeId(2)]);

    let reordered = facts(NodeKind::Box, None, &[3, 2, 1]);
    let plan = reconcile_plan(&prev, &reordered, false).unwrap();
    assert!(plan.children_changed);
    assert_eq!(plan.structural, 0);
    assert!(plan.dropped.is_empty());
}

#[test]
fn reconcile_plan_content_wrap_and_kind_flip() {
    let prev = facts(NodeKind::Text, Some("a"), &[]);
    let mut next = facts(NodeKind::Text, Some("ab"), &[]);
    next.wrap = Some(false);
    next.stream_sig = Some((1, 7));
    let plan = reconcile_plan(&prev, &next, false).unwrap();
    assert!(plan.refresh_content && plan.refresh_wrap && plan.refresh_stream);
    assert!(!plan.set_style && !plan.children_changed);
    let flipped = facts(NodeKind::Box, Some("a"), &[]);
    assert!(reconcile_plan(&prev, &flipped, false).is_none());
}
