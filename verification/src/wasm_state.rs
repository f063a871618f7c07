//! The shared state of the web binding: one scene plus the handle table the
//! JSON-prop protocol drives it through. A handle is either a detached node
//! template (`create_node`, not yet in the scene) or bound to a live scene
//! node; handle `0` is the scene root. Every failing operation records its
//! error as the last error.
//!
//! The JSON texts the host sends are parsed by the host glue, which hands
//! each operation what it parsed (or the parser's message).

use vstd::prelude::*;

use std::collections::HashMap;

use crate::protocol::{apply_style_key, style_key_spec, value_sliceable, JsonScalar};
use crate::scene::{
    added, prop_eq, prop_maps_eq, remove_keeps_a_tree, removed, tree_ok, written, NodeId, NodeKind, NodeView, PropMap, PropValue,
    PropValueView, Scene, SceneView, Span,
};
use crate::style::{Style, StyleView};
use crate::text::str_eq;
use crate::wasm::MAX_RENDER_AXIS;

verus! {

broadcast use vstd::std_specs::hash::group_hash_axioms;

// ---------------------------------------------------------------------------
// Errors
// ---------------------------------------------------------------------------

/// Why an operation of the binding failed.
#[derive(Debug)]
pub enum WasmError {
    /// No handle with this id exists.
    UnknownHandle(u64),
    /// The handle is a detached template where a bound node is needed.
    DetachedTemplate,
    /// `create_node` was given a type other than `box`, `text` or
    /// `streaming_text`.
    UnknownNodeType(String),
    /// The props JSON did not parse (the parser's message).
    InvalidProps(String),
    /// The style JSON did not parse (the parser's message).
    InvalidStyle(String),
    /// The value JSON did not parse (the parser's message).
    InvalidValue(String),
    /// The child handle is already bound to a scene node.
    ChildAttached,
    /// No child handle with this id exists.
    UnknownChild(u64),
    /// The parent's node is no longer in the scene.
    ParentMissing,
    /// A bound handle's node is no longer in the scene.
    NodeMissing,
    /// `append_span` on a node that is not a streaming-text node.
    NotStreaming,
    /// A render larger than [`MAX_RENDER_AXIS`] cells on an axis.
    RenderTooLarge(u32, u32),
}

/// The value of a [`WasmError`].
pub enum WasmErrorView {
    UnknownHandle(u64),
    DetachedTemplate,
    UnknownNodeType(Seq<char>),
    InvalidProps(Seq<char>),
    InvalidStyle(Seq<char>),
    InvalidValue(Seq<char>),
    ChildAttached,
    UnknownChild(u64),
    ParentMissing,
    NodeMissing,
    NotStreaming,
    RenderTooLarge(u32, u32),
}

impl View for WasmError {
    type V = WasmErrorView;

    open spec fn view(&self) -> WasmErrorView {
        match self {
            WasmError::UnknownHandle(h) => WasmErrorView::UnknownHandle(*h),
            WasmError::DetachedTemplate => WasmErrorView::DetachedTemplate,
            WasmError::UnknownNodeType(s) => WasmErrorView::UnknownNodeType(s@),
            WasmError::InvalidProps(s) => WasmErrorView::InvalidProps(s@),
            WasmError::InvalidStyle(s) => WasmErrorView::InvalidStyle(s@),
            WasmError::InvalidValue(s) => WasmErrorView::InvalidValue(s@),
            WasmError::ChildAttached => WasmErrorView::ChildAttached,
            WasmError::UnknownChild(h) => WasmErrorView::UnknownChild(*h),
            WasmError::ParentMissing => WasmErrorView::ParentMissing,
            WasmError::NodeMissing => WasmErrorView::NodeMissing,
            WasmError::NotStreaming => WasmErrorView::NotStreaming,
            WasmError::RenderTooLarge(w, h) => WasmErrorView::RenderTooLarge(*w, *h),
        }
    }
}

/// A copy of an error.
fn copy_error(e: &WasmError) -> (r: WasmError)
    ensures
        r@ == e@,
{
    match e {
        WasmError::UnknownHandle(h) => WasmError::UnknownHandle(*h),
        WasmError::DetachedTemplate => WasmError::DetachedTemplate,
        WasmError::UnknownNodeType(s) => WasmError::UnknownNodeType(s.clone()),
        WasmError::InvalidProps(s) => WasmError::InvalidProps(s.clone()),
        WasmError::InvalidStyle(s) => WasmError::InvalidStyle(s.clone()),
        WasmError::InvalidValue(s) => WasmError::InvalidValue(s.clone()),
        WasmError::ChildAttached => WasmError::ChildAttached,
        WasmError::UnknownChild(h) => WasmError::UnknownChild(*h),
        WasmError::ParentMissing => WasmError::ParentMissing,
        WasmError::NodeMissing => WasmError::NodeMissing,
        WasmError::NotStreaming => WasmError::NotStreaming,
        WasmError::RenderTooLarge(w, h) => WasmError::RenderTooLarge(*w, *h),
    }
}

// ---------------------------------------------------------------------------
// Handles
// ---------------------------------------------------------------------------

/// A handle's state: a detached template carrying the kind, style and props
/// a bound node is made from, or a bound scene node id.
#[derive(Debug)]
pub enum HandleState {
    Detached { kind: NodeKind, style: Style, props: PropMap },
    Attached(NodeId),
}

/// The value of a [`HandleState`].
pub enum HandleView {
    Detached { kind: NodeKind, style: StyleView, props: Map<Seq<char>, PropValueView> },
    Attached(u64),
}

impl View for HandleState {
    type V = HandleView;

    open spec fn view(&self) -> HandleView {
        match self {
            HandleState::Detached { kind, style, props } => HandleView::Detached {
                kind: *kind,
                style: style@,
                props: props@,
            },
            HandleState::Attached(id) => HandleView::Attached(id.0),
        }
    }
}

/// The values of a handle table.
pub open spec fn handle_views(m: Map<u64, HandleState>) -> Map<u64, HandleView> {
    m.map_values(|h: HandleState| h@)
}

/// The node kind a `create_node` type names: `box`, `text` or
/// `streaming_text`.
pub open spec fn node_kind_spec(name: Seq<char>) -> Option<NodeKind> {
    if name == "box"@ {
        Some(NodeKind::Box)
    } else if name == "text"@ {
        Some(NodeKind::Text)
    } else if name == "streaming_text"@ {
        Some(NodeKind::StreamingText)
    } else {
        None
    }
}

/// The node kind a `create_node` type names (see [`node_kind_spec`]).
pub fn node_kind(name: &str) -> (r: Option<NodeKind>)
    ensures
        r == node_kind_spec(name@),
{
    if str_eq(name, "box") {
        Some(NodeKind::Box)
    } else if str_eq(name, "text") {
        Some(NodeKind::Text)
    } else if str_eq(name, "streaming_text") {
        Some(NodeKind::StreamingText)
    } else {
        None
    }
}

// ---------------------------------------------------------------------------
// The effects of the scene writes
// ---------------------------------------------------------------------------

/// The scene after `set_style(id, st)`.
pub open spec fn style_set(v: SceneView, id: u64, st: StyleView) -> SceneView {
    if !v.nodes.contains_key(id) || v.nodes[id].style == st {
        v
    } else {
        written(v, id, NodeView { style: st, ..v.nodes[id] })
    }
}

/// The scene after `set_props(id, p)`.
pub open spec fn props_set(v: SceneView, id: u64, p: Map<Seq<char>, PropValueView>) -> SceneView {
    if !v.nodes.contains_key(id) || prop_maps_eq(v.nodes[id].props, p) {
        v
    } else {
        written(v, id, NodeView { props: p, ..v.nodes[id] })
    }
}

/// The scene after `set_prop(id, key, value)`.
pub open spec fn prop_set(v: SceneView, id: u64, key: Seq<char>, value: PropValueView) -> SceneView {
    if !v.nodes.contains_key(id) || (v.nodes[id].props.contains_key(key) && prop_eq(v.nodes[id].props[key], value)) {
        v
    } else {
        written(v, id, NodeView { props: v.nodes[id].props.insert(key, value), ..v.nodes[id] })
    }
}

/// The scene after `append_span(id, (text, style))` on a streaming node.
pub open spec fn span_appended(v: SceneView, id: u64, text: Seq<char>, st: StyleView) -> SceneView {
    written(v, id, NodeView {
        stream: Some(
            match v.nodes[id].stream {
                Some(s) => s,
                None => Seq::empty(),
            }.push((text, st)),
        ),
        ..v.nodes[id]
    })
}

/// The scene after a template is materialized as a new child `c` of `p`.
pub open spec fn materialized(v: SceneView, p: u64, kind: NodeKind, st: StyleView, props: Map<Seq<char>, PropValueView>) -> SceneView {
    let c = v.next_id as u64;
    props_set(added(v, p, c, v.nodes[p].children.push(c), kind, st), c, props)
}

// ---------------------------------------------------------------------------
// The state
// ---------------------------------------------------------------------------

/// The binding's state: the scene, the handle table, the next handle id,
/// and the last error.
#[derive(Debug)]
pub struct WasmState {
    /// The scene tree driven through the protocol.
    pub scene: Scene,
    handles: HashMap<u64, HandleState>,
    next_handle: u64,
    last_error: Option<WasmError>,
}

/// The value of a [`WasmState`]: its scene, the handle table, the next
/// handle id, and the last error.
pub struct WasmView {
    pub scene: SceneView,
    pub handles: Map<u64, HandleView>,
    pub next_handle: u64,
    pub last_error: Option<WasmErrorView>,
}

impl View for WasmState {
    type V = WasmView;

    closed spec fn view(&self) -> WasmView {
        WasmView {
            scene: self.scene@,
            handles: handle_views(self.handles@),
            next_handle: self.next_handle,
            last_error: match self.last_error {
                Some(e) => Some(e@),
                None => None,
            },
        }
    }
}

impl WasmState {
    /// The scene is consistent (see [`Scene::wf`]).
    pub closed spec fn wf(&self) -> bool {
        self.scene.wf()
    }

    /// The room every operation needs: two scene writes and a new node id.
    pub open spec fn room(&self) -> bool {
        &&& self.wf()
        &&& self@.scene.epoch < u64::MAX - 2
        &&& self@.scene.next_id < u64::MAX
    }

    /// A fresh state: an empty scene whose handle `0` is the root.
    pub fn new() -> (s: Self)
        ensures
            s.wf(),
            s@.scene.nodes.dom() == set![0u64],
            s@.scene.epoch == 0,
            s@.handles == map![0u64 => HandleView::Attached(0)],
            s@.next_handle == 1,
            s@.last_error is None,
    {
        let scene = Scene::new();
        let root = scene.root_id();
        let mut handles: HashMap<u64, HandleState> = HashMap::new();
        handles.insert(0, HandleState::Attached(root));
        let s = WasmState { scene, handles, next_handle: 1, last_error: None };
        assert(s@.handles =~= map![0u64 => HandleView::Attached(0)]);
        s
    }

    /// Whether the scene has the room every operation needs (see
    /// [`WasmState::room`]).
    pub fn has_room(&self) -> (b: bool)
        requires
            self.wf(),
        ensures
            b == self.room(),
    {
        self.scene.epoch() < u64::MAX - 2 && self.scene.has_free_id()
    }

    /// The root handle (always `0`).
    pub fn root_handle(&self) -> (h: u64)
        ensures
            h == 0,
    {
        0
    }

    /// The error of the last failed operation.
    pub fn last_error(&self) -> (e: Option<&WasmError>)
        ensures
            match e {
                Some(x) => self@.last_error == Some(x@),
                None => self@.last_error is None,
            },
    {
        match &self.last_error {
            Some(x) => Some(x),
            None => None,
        }
    }

    /// The handle id the next `create_node` hands out.
    pub fn next_handle(&self) -> (h: u64)
        ensures
            h == self@.next_handle,
    {
        self.next_handle
    }

    /// Reset every handle and the scene (a fresh state).
    pub fn reset(&mut self)
        ensures
            final(self).wf(),
            final(self)@.scene.nodes.dom() == set![0u64],
            final(self)@.scene.epoch == 0,
            final(self)@.handles == map![0u64 => HandleView::Attached(0)],
            final(self)@.next_handle == 1,
            final(self)@.last_error is None,
    {
        *self = WasmState::new();
    }

    /// Record `e` as the last error and fail with it.
    fn fail<T>(&mut self, e: WasmError) -> (r: Result<T, WasmError>)
        ensures
            r matches Err(x) && x@ == e@,
            final(self)@.last_error == Some(e@),
            final(self)@.handles == old(self)@.handles,
            final(self)@.next_handle == old(self)@.next_handle,
            final(self).scene == old(self).scene,
            final(self).wf() == old(self).wf(),
    {
        let copy = copy_error(&e);
        self.last_error = Some(e);
        Err(copy)
    }

    /// The scene node a handle is bound to.
    fn attached_id(&mut self, handle: u64) -> (r: Result<NodeId, WasmError>)
        ensures
            final(self)@.handles == old(self)@.handles,
            final(self)@.next_handle == old(self)@.next_handle,
            final(self).scene == old(self).scene,
            final(self).wf() == old(self).wf(),
            match old(self)@.handles.get(handle) {
                Some(HandleView::Attached(id)) => r == Ok::<NodeId, WasmError>(NodeId(id))
                    && final(self)@.last_error == old(self)@.last_error,
                Some(HandleView::Detached { .. }) => r matches Err(e) && e@ == WasmErrorView::DetachedTemplate
                    && final(self)@.last_error == Some(e@),
                None => r matches Err(e) && e@ == WasmErrorView::UnknownHandle(handle)
                    && final(self)@.last_error == Some(e@),
            },
    {
        match self.handles.get(&handle) {
            Some(HandleState::Attached(id)) => Ok(*id),
            Some(HandleState::Detached { .. }) => self.fail(WasmError::DetachedTemplate),
            None => self.fail(WasmError::UnknownHandle(handle)),
        }
    }

    /// Create a detached template of type `kind_name` (`box`, `text`,
    /// `streaming_text`) from its parsed props (its style and prop map, or
    /// the JSON parser's message). The type is checked first, then the
    /// props; on success the template gets the next handle id.
    pub fn create_node(&mut self, kind_name: &str, parsed: Result<(Style, PropMap), String>) -> (r: Result<u64, WasmError>)
        requires
            old(self)@.next_handle < u64::MAX,
        ensures
            final(self).wf() == old(self).wf(),
            match node_kind_spec(kind_name@) {
                None => r matches Err(e) && e@ == WasmErrorView::UnknownNodeType(kind_name@)
                    && final(self)@ == WasmView { last_error: Some(e@), ..old(self)@ },
                Some(kind) => match parsed {
                    Err(msg) => r matches Err(e) && e@ == WasmErrorView::InvalidProps(msg@)
                        && final(self)@ == WasmView { last_error: Some(e@), ..old(self)@ },
                    Ok((st, p)) => r == Ok::<u64, WasmError>(old(self)@.next_handle) && final(self)@ == WasmView {
                        handles: old(self)@.handles.insert(
                            old(self)@.next_handle,
                            HandleView::Detached { kind, style: st@, props: p@ },
                        ),
                        next_handle: (old(self)@.next_handle + 1) as u64,
                        ..old(self)@
                    },
                },
            },
    {
        let kind = match node_kind(kind_name) {
            Some(k) => k,
            None => {
                return self.fail(WasmError::UnknownNodeType(kind_name.to_string()));
            },
        };
        let (style, props) = match parsed {
            Ok(sp) => sp,
            Err(msg) => {
                return self.fail(WasmError::InvalidProps(msg));
            },
        };
        let handle = self.next_handle;
        self.next_handle = self.next_handle + 1;
        let ghost hv = HandleView::Detached { kind, style: style@, props: props@ };
        self.handles.insert(handle, HandleState::Detached { kind, style, props });
        assert(handle_views(self.handles@) =~= handle_views(old(self).handles@).insert(handle, hv));
        Ok(handle)
    }

    /// Materialize the detached template `child` as a new child of the node
    /// bound to `parent`, binding `child` to it; returns `child`. Fails when
    /// `parent` is unknown or detached, when `child` is not a detached
    /// template (a bound `child` leaves the table), or when the parent's
    /// node is gone (the template stays).
    pub fn add_child(&mut self, parent: u64, child: u64) -> (r: Result<u64, WasmError>)
        requires
            old(self).room(),
        ensures
            final(self).wf(),
            final(self)@.next_handle == old(self)@.next_handle,
            match old(self)@.handles.get(parent) {
                None => r matches Err(e) && e@ == WasmErrorView::UnknownHandle(parent)
                    && final(self)@ == WasmView { last_error: Some(e@), ..old(self)@ },
                Some(HandleView::Detached { .. }) => r matches Err(e) && e@ == WasmErrorView::DetachedTemplate
                    && final(self)@ == WasmView { last_error: Some(e@), ..old(self)@ },
                Some(HandleView::Attached(p)) => match old(self)@.handles.get(child) {
                    Some(HandleView::Detached { kind, style, props }) => if old(self)@.scene.nodes.contains_key(p) {
                        r == Ok::<u64, WasmError>(child) && final(self)@ == WasmView {
                            scene: materialized(old(self)@.scene, p, kind, style, props),
                            handles: old(self)@.handles.insert(child, HandleView::Attached(old(self)@.scene.next_id as u64)),
                            ..old(self)@
                        }
                    } else {
                        r matches Err(e) && e@ == WasmErrorView::ParentMissing
                            && final(self)@ == WasmView { last_error: Some(e@), ..old(self)@ }
                    },
                    _ => r matches Err(e) && e@ == WasmErrorView::UnknownChild(child)
                        && final(self)@ == WasmView {
                            handles: old(self)@.handles.remove(child),
                            last_error: Some(e@),
                            ..old(self)@
                        },
                },
            },
    {
        let parent_id = match self.attached_id(parent) {
            Ok(id) => id,
            Err(e) => {
                return Err(e);
            },
        };
        let ghost h0 = self.handles@;
        let (kind, style, props) = match self.handles.remove(&child) {
            Some(HandleState::Detached { kind, style, props }) => (kind, style, props),
            _ => {
                assert(handle_views(self.handles@) =~= handle_views(h0).remove(child));
                if self.handles.contains_key(&child) {
                    return self.fail(WasmError::ChildAttached);
                }
                return self.fail(WasmError::UnknownChild(child));
            },
        };
        let ghost v0 = self.scene@;
        let id = match self.scene.add_child(parent_id, kind, style.clone()) {
            Some(id) => id,
            None => {
                let ghost hv = HandleView::Detached { kind, style: style@, props: props@ };
                self.handles.insert(child, HandleState::Detached { kind, style, props });
                assert(handle_views(self.handles@) =~= handle_views(h0));
                return self.fail(WasmError::ParentMissing);
            },
        };
        self.scene.set_props(id, props.clone());
        self.handles.insert(child, HandleState::Attached(id));
        assert(handle_views(self.handles@) =~= handle_views(h0).insert(child, HandleView::Attached(id.0)));
        Ok(child)
    }

    /// Detach `handle`'s node (and its whole subtree) from the scene; the
    /// handle becomes a template of the node's kind, style and props again.
    /// Returns whether the scene changed (the root never leaves it). A
    /// template handle is left alone (`false`).
    pub fn remove(&mut self, handle: u64) -> (r: Result<bool, WasmError>)
        requires
            old(self).room(),
        ensures
            final(self).wf(),
            final(self)@.next_handle == old(self)@.next_handle,
            match old(self)@.handles.get(handle) {
                None => r matches Err(e) && e@ == WasmErrorView::UnknownHandle(handle)
                    && final(self)@ == WasmView { last_error: Some(e@), ..old(self)@ },
                Some(HandleView::Detached { .. }) => r == Ok::<bool, WasmError>(false) && final(self)@ == old(self)@,
                Some(HandleView::Attached(id)) => if old(self)@.scene.nodes.contains_key(id) {
                    let n = old(self)@.scene.nodes[id];
                    r == Ok::<bool, WasmError>(id != 0) && final(self)@ == WasmView {
                        scene: if id != 0 { removed(old(self)@.scene, id) } else { old(self)@.scene },
                        handles: old(self)@.handles.insert(
                            handle,
                            HandleView::Detached { kind: n.kind, style: n.style, props: n.props },
                        ),
                        ..old(self)@
                    }
                } else {
                    r matches Err(e) && e@ == WasmErrorView::NodeMissing
                        && final(self)@ == WasmView { last_error: Some(e@), ..old(self)@ }
                },
            },
    {
        let id = match self.handles.get(&handle) {
            Some(HandleState::Attached(id)) => *id,
            Some(HandleState::Detached { .. }) => {
                return Ok(false);
            },
            None => {
                return self.fail(WasmError::UnknownHandle(handle));
            },
        };
        let (kind, style, props) = match self.scene.node(id) {
            Some(n) => (n.kind, n.style.clone(), n.props.clone()),
            None => {
                return self.fail(WasmError::NodeMissing);
            },
        };
        let ghost h0 = self.handles@;
        let ghost hv = HandleView::Detached { kind, style: style@, props: props@ };
        let removed = self.scene.remove(id);
        self.handles.insert(handle, HandleState::Detached { kind, style, props });
        assert(handle_views(self.handles@) =~= handle_views(h0).insert(handle, hv));
        Ok(removed)
    }

    /// Replace a handle's style and props from its parsed props (or the
    /// JSON parser's message): a template's pending style and props, or the
    /// bound node's style and prop map.
    pub fn set_props(&mut self, handle: u64, parsed: Result<(Style, PropMap), String>) -> (r: Result<(), WasmError>)
        requires
            old(self).room(),
        ensures
            final(self).wf(),
            final(self)@.next_handle == old(self)@.next_handle,
            match parsed {
                Err(msg) => r matches Err(e) && e@ == WasmErrorView::InvalidProps(msg@)
                    && final(self)@ == WasmView { last_error: Some(e@), ..old(self)@ },
                Ok((st, p)) => match old(self)@.handles.get(handle) {
                    None => r matches Err(e) && e@ == WasmErrorView::UnknownHandle(handle)
                        && final(self)@ == WasmView { last_error: Some(e@), ..old(self)@ },
                    Some(HandleView::Detached { kind, .. }) => r is Ok && final(self)@ == WasmView {
                        handles: old(self)@.handles.insert(handle, HandleView::Detached { kind, style: st@, props: p@ }),
                        ..old(self)@
                    },
                    Some(HandleView::Attached(id)) => r is Ok && final(self)@ == WasmView {
                        scene: props_set(style_set(old(self)@.scene, id, st@), id, p@),
                        ..old(self)@
                    },
                },
            },
    {
        let (style, map) = match parsed {
            Ok(sp) => sp,
            Err(msg) => {
                return self.fail(WasmError::InvalidProps(msg));
            },
        };
        let ghost h0 = self.handles@;
        match self.handles.remove(&handle) {
            Some(HandleState::Detached { kind, .. }) => {
                let ghost hv = HandleView::Detached { kind, style: style@, props: map@ };
                self.handles.insert(handle, HandleState::Detached { kind, style, props: map });
                assert(handle_views(self.handles@) =~= handle_views(h0).insert(handle, hv));
                Ok(())
            },
            Some(HandleState::Attached(id)) => {
                self.handles.insert(handle, HandleState::Attached(id));
                assert(handle_views(self.handles@) =~= handle_views(h0));
                self.scene.set_style(id, style);
                self.scene.set_props(id, map);
                Ok(())
            },
            None => {
                assert(handle_views(self.handles@) =~= handle_views(h0));
                self.fail(WasmError::UnknownHandle(handle))
            },
        }
    }

    /// Set a single property or style key on a handle from its parsed value
    /// (what the style keys read of it and its prop form, or the JSON
    /// parser's message). A style key updates the style; any other key with
    /// a prop form sets that prop; an equal-value write changes nothing.
    pub fn set_prop(
        &mut self,
        handle: u64,
        key: &str,
        value: Result<(JsonScalar, Option<PropValue>), String>,
    ) -> (r: Result<(), WasmError>)
        requires
            old(self).room(),
            (key@ == "border_color"@ || key@ == "fg"@ || key@ == "bg"@) ==> match value {
                Ok((sc, _)) => value_sliceable(sc@),
                Err(_) => true,
            },
        ensures
            final(self).wf(),
            final(self)@.next_handle == old(self)@.next_handle,
            match value {
                Err(msg) => r matches Err(e) && e@ == WasmErrorView::InvalidValue(msg@)
                    && final(self)@ == WasmView { last_error: Some(e@), ..old(self)@ },
                Ok((sc, pv)) => match old(self)@.handles.get(handle) {
                    None => r matches Err(e) && e@ == WasmErrorView::UnknownHandle(handle)
                        && final(self)@ == WasmView { last_error: Some(e@), ..old(self)@ },
                    Some(HandleView::Detached { kind, style, props }) => r is Ok && final(self)@ == WasmView {
                        handles: old(self)@.handles.insert(handle, match style_key_spec(style, key@, sc@) {
                            Some(st) => HandleView::Detached { kind, style: st, props },
                            None => match pv {
                                Some(v) => HandleView::Detached { kind, style, props: props.insert(key@, v@) },
                                None => HandleView::Detached { kind, style, props },
                            },
                        }),
                        ..old(self)@
                    },
                    Some(HandleView::Attached(id)) => r is Ok && final(self)@ == WasmView {
                        scene: match (if old(self)@.scene.nodes.contains_key(id) {
                            style_key_spec(old(self)@.scene.nodes[id].style, key@, sc@)
                        } else {
                            None
                        }) {
                            Some(st) => style_set(old(self)@.scene, id, st),
                            None => match pv {
                                Some(v) => prop_set(old(self)@.scene, id, key@, v@),
                                None => old(self)@.scene,
                            },
                        },
                        ..old(self)@
                    },
                },
            },
    {
        let (scalar, pv) = match value {
            Ok(v) => v,
            Err(msg) => {
                return self.fail(WasmError::InvalidValue(msg));
            },
        };
        let ghost h0 = self.handles@;
        match self.handles.remove(&handle) {
            Some(HandleState::Detached { kind, style, props }) => {
                let mut props = props;
                let style = match apply_style_key(style.clone(), key, &scalar) {
                    Some(updated) => updated,
                    None => {
                        match pv {
                            Some(v) => {
                                props.insert(key.to_string(), v);
                            },
                            None => {},
                        }
                        style
                    },
                };
                let ghost hv = HandleView::Detached { kind, style: style@, props: props@ };
                self.handles.insert(handle, HandleState::Detached { kind, style, props });
                assert(handle_views(self.handles@) =~= handle_views(h0).insert(handle, hv));
                Ok(())
            },
            Some(HandleState::Attached(id)) => {
                self.handles.insert(handle, HandleState::Attached(id));
                assert(handle_views(self.handles@) =~= handle_views(h0));
                let updated = match self.scene.node(id) {
                    Some(n) => apply_style_key(n.style.clone(), key, &scalar),
                    None => None,
                };
                match updated {
                    Some(st) => {
                        self.scene.set_style(id, st);
                    },
                    None => match pv {
                        Some(v) => {
                            self.scene.set_prop(id, key, v);
                        },
                        None => {},
                    },
                }
                Ok(())
            },
            None => {
                assert(handle_views(self.handles@) =~= handle_views(h0));
                self.fail(WasmError::UnknownHandle(handle))
            },
        }
    }

    /// Append a span of `text` in its parsed style (or the JSON parser's
    /// message) to the stream of the streaming-text node bound to `handle`.
    pub fn append_span(&mut self, handle: u64, text: &str, style: Result<Style, String>) -> (r: Result<(), WasmError>)
        requires
            old(self).room(),
        ensures
            final(self).wf(),
            final(self)@.next_handle == old(self)@.next_handle,
            final(self)@.handles == old(self)@.handles,
            match style {
                Err(msg) => r matches Err(e) && e@ == WasmErrorView::InvalidStyle(msg@)
                    && final(self)@ == WasmView { last_error: Some(e@), ..old(self)@ },
                Ok(st) => match old(self)@.handles.get(handle) {
                    None => r matches Err(e) && e@ == WasmErrorView::UnknownHandle(handle)
                        && final(self)@ == WasmView { last_error: Some(e@), ..old(self)@ },
                    Some(HandleView::Detached { .. }) => r matches Err(e) && e@ == WasmErrorView::DetachedTemplate
                        && final(self)@ == WasmView { last_error: Some(e@), ..old(self)@ },
                    Some(HandleView::Attached(id)) => if old(self)@.scene.nodes.contains_key(id)
                        && old(self)@.scene.nodes[id].kind == NodeKind::StreamingText {
                        r is Ok && final(self)@ == WasmView {
                            scene: span_appended(old(self)@.scene, id, text@, st@),
                            ..old(self)@
                        }
                    } else {
                        r matches Err(e) && e@ == WasmErrorView::NotStreaming
                            && final(self)@ == WasmView { last_error: Some(e@), ..old(self)@ }
                    },
                },
            },
    {
        let style = match style {
            Ok(st) => st,
            Err(msg) => {
                return self.fail(WasmError::InvalidStyle(msg));
            },
        };
        let id = match self.attached_id(handle) {
            Ok(id) => id,
            Err(e) => {
                return Err(e);
            },
        };
        let streaming = match self.scene.node(id) {
            Some(n) => n.kind == NodeKind::StreamingText,
            None => false,
        };
        if !streaming {
            return self.fail(WasmError::NotStreaming);
        }
        if !self.scene.append_span(id, Span { text: text.to_string(), style }) {
            return self.fail(WasmError::NodeMissing);
        }
        Ok(())
    }

    /// Whether a `width` × `height` render goes ahead: `Ok(false)` for an
    /// empty frame (nothing to render), `Ok(true)` within
    /// [`MAX_RENDER_AXIS`] cells per axis, else the error (recorded).
    pub fn check_render_size(&mut self, width: u32, height: u32) -> (r: Result<bool, WasmError>)
        ensures
            final(self).wf() == old(self).wf(),
            width == 0 || height == 0 ==> r == Ok::<bool, WasmError>(false) && final(self)@ == old(self)@,
            width != 0 && height != 0 && width <= MAX_RENDER_AXIS && height <= MAX_RENDER_AXIS
                ==> r == Ok::<bool, WasmError>(true) && final(self)@ == old(self)@,
            width != 0 && height != 0 && (width > MAX_RENDER_AXIS || height > MAX_RENDER_AXIS)
                ==> (r matches Err(e) && e@ == WasmErrorView::RenderTooLarge(width, height)
                    && final(self)@ == (WasmView { last_error: Some(e@), ..old(self)@ })),
    {
        if width == 0 || height == 0 {
            return Ok(false);
        }
        if width > MAX_RENDER_AXIS || height > MAX_RENDER_AXIS {
            return self.fail(WasmError::RenderTooLarge(width, height));
        }
        Ok(true)
    }
}

// ---------------------------------------------------------------------------
// The scratch region
// ---------------------------------------------------------------------------

/// `n` rounded up to a multiple of 8.
pub open spec fn align8(n: int) -> int {
    if n % 8 == 0 { n } else { n + (8 - n % 8) }
}

/// The bump allocation of `len` bytes in a scratch region of `region_len`
/// bytes whose next free offset is `off`: the allocation's start, the next
/// free offset after it, and the region length it needs. An empty
/// allocation starts at the region's start and moves nothing; any other
/// starts at `off` rounded up to 8 and, when it runs past the region, grows
/// the region to the largest of its end, twice the region (saturating) and
/// 64 KiB. `None` when the end overflows.
pub open spec fn scratch_plan_spec(off: int, region_len: int, len: int) -> Option<(int, int, int)> {
    if len == 0 {
        Some((0, off, region_len))
    } else {
        let start = align8(off);
        let end = start + len;
        if end > usize::MAX {
            None
        } else if end > region_len {
            let twice = if 2 * region_len > usize::MAX { usize::MAX as int } else { 2 * region_len };
            let grown = if end > twice { end } else { twice };
            Some((start, end, if grown > 65536 { grown } else { 65536 }))
        } else {
            Some((start, end, region_len))
        }
    }
}

/// Plan a bump allocation in the scratch region (see [`scratch_plan_spec`]).
pub fn scratch_plan(off: usize, region_len: usize, len: usize) -> (r: Option<(usize, usize, usize)>)
    requires
        off <= usize::MAX - 7,
    ensures
        match scratch_plan_spec(off as int, region_len as int, len as int) {
            Some((a, b, c)) => r == Some((a as usize, b as usize, c as usize)),
            None => r is None,
        },
{
    if len == 0 {
        return Some((0, off, region_len));
    }
    let start = if off % 8 == 0 { off } else { off + (8 - off % 8) };
    let end = match start.checked_add(len) {
        Some(e) => e,
        None => {
            return None;
        },
    };
    if end > region_len {
        let twice = if region_len > usize::MAX / 2 { usize::MAX } else { region_len * 2 };
        let grown = if end > twice { end } else { twice };
        Some((start, end, if grown > 65536 { grown } else { 65536 }))
    } else {
        Some((start, end, region_len))
    }
}

// ---------------------------------------------------------------------------
// Laws
// ---------------------------------------------------------------------------

/// A template is materialized with exactly what it carries: the new node is
/// the parent's last child and has the template's kind, style and props.
pub proof fn materialized_node_carries_template(
    v: SceneView,
    p: u64,
    kind: NodeKind,
    st: StyleView,
    props: Map<Seq<char>, PropValueView>,
)
    requires
        tree_ok(v),
        v.nodes.contains_key(p),
        v.next_id < u64::MAX,
    ensures
        ({
            let c = v.next_id as u64;
            let w = materialized(v, p, kind, st, props);
            &&& w.nodes.contains_key(c)
            &&& w.nodes[c].kind == kind
            &&& w.nodes[c].style == st
            &&& w.nodes[c].props == props
            &&& w.nodes[c].parent == Some(p)
            &&& w.nodes[p].children == v.nodes[p].children.push(c)
        }),
{
    let c = v.next_id as u64;
    let a = added(v, p, c, v.nodes[p].children.push(c), kind, st);
    assert(p != c);
    if prop_maps_eq(a.nodes[c].props, props) {
        assert(props =~= Map::<Seq<char>, PropValueView>::empty());
    }
}

/// Detaching a bound node and attaching its handle again (under a parent
/// still in the scene) restores the node's kind, style and props, as the
/// parent's new last child.
pub proof fn remove_then_add_child_restores(v: SceneView, id: u64, p: u64)
    requires
        tree_ok(v),
        id != 0,
        v.nodes.contains_key(id),
        removed(v, id).nodes.contains_key(p),
        v.next_id < u64::MAX,
    ensures
        ({
            let n = v.nodes[id];
            let r = removed(v, id);
            let c = r.next_id as u64;
            let w = materialized(r, p, n.kind, n.style, n.props);
            &&& w.nodes.contains_key(c)
            &&& w.nodes[c].kind == n.kind
            &&& w.nodes[c].style == n.style
            &&& w.nodes[c].props == n.props
            &&& w.nodes[p].children.last() == c
        }),
{
    remove_keeps_a_tree(v, id);
    let n = v.nodes[id];
    materialized_node_carries_template(removed(v, id), p, n.kind, n.style, n.props);
}

} // verus!
