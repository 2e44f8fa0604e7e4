//! Windows and split containers.
use vstd::prelude::*;

use crate::active_drag::ActiveDrag;
use crate::config::WindowState;
use crate::geometry::{Rect, TilingDirection};
use crate::monitor::position_view;
use crate::window_rules::{rules_view, WindowRuleConfig, WindowRuleConfigView};

verus! {

/// Whether a window is shown, as far as the window manager is concerned.
#[derive(Clone, Copy, Debug, PartialEq, Eq, Structural)]
pub enum DisplayState {
    Shown,
    Showing,
    Hidden,
    Hiding,
}

/// Where a window is inserted once it is tiled again.
#[derive(Clone, Copy, Debug, PartialEq, Eq, Structural)]
pub struct InsertionTarget {
    /// Identifier of the container that the window is inserted into.
    pub target_parent: u128,
    /// Position among the children of that container.
    pub target_index: usize,
}

/// A managed window.
#[derive(Debug)]
pub struct Window {
    /// Handle of the native window.
    pub native: isize,
    pub title: String,
    pub class_name: String,
    pub process_name: String,
    /// Frame of the native window.
    pub frame: Rect,
    pub is_minimized: bool,
    pub is_maximized: bool,
    pub state: WindowState,
    pub prev_state: Option<WindowState>,
    pub display_state: DisplayState,
    pub active_drag: Option<ActiveDrag>,
    pub floating_placement: Rect,
    pub insertion_target: Option<InsertionTarget>,
    pub has_pending_dpi_adjustment: bool,
    /// Rules that have been run for the window and aren't run again.
    pub done_window_rules: Vec<WindowRuleConfig>,
}

pub struct WindowView {
    pub native: isize,
    pub title: Seq<char>,
    pub class_name: Seq<char>,
    pub process_name: Seq<char>,
    pub frame: Rect,
    pub is_minimized: bool,
    pub is_maximized: bool,
    pub state: WindowState,
    pub prev_state: Option<WindowState>,
    pub display_state: DisplayState,
    pub active_drag: Option<ActiveDrag>,
    pub floating_placement: Rect,
    pub insertion_target: Option<InsertionTarget>,
    pub has_pending_dpi_adjustment: bool,
    pub done_window_rules: Seq<WindowRuleConfigView>,
}

impl View for Window {
    type V = WindowView;

    open spec fn view(&self) -> WindowView {
        WindowView {
            native: self.native,
            title: self.title@,
            class_name: self.class_name@,
            process_name: self.process_name@,
            frame: self.frame,
            is_minimized: self.is_minimized,
            is_maximized: self.is_maximized,
            state: self.state,
            prev_state: self.prev_state,
            display_state: self.display_state,
            active_drag: self.active_drag,
            floating_placement: self.floating_placement,
            insertion_target: self.insertion_target,
            has_pending_dpi_adjustment: self.has_pending_dpi_adjustment,
            done_window_rules: rules_view(self.done_window_rules@),
        }
    }
}

/// What a node of the layout tree is.
#[derive(Debug)]
pub enum NodeContent {
    Split { tiling_direction: TilingDirection },
    Window(Window),
}

pub enum NodeContentView {
    Split { tiling_direction: TilingDirection },
    Window(WindowView),
}

impl View for NodeContent {
    type V = NodeContentView;

    open spec fn view(&self) -> NodeContentView {
        match self {
            NodeContent::Split { tiling_direction } => NodeContentView::Split {
                tiling_direction: *tiling_direction,
            },
            NodeContent::Window(window) => NodeContentView::Window(window@),
        }
    }
}

/// A window or split container within a workspace.
#[derive(Debug)]
pub struct Node {
    pub id: u128,
    /// Identifier of the workspace that the node is in.
    pub workspace: u128,
    /// Identifier of the split container that the node is a direct child of, `None` for direct
    /// children of the workspace.
    pub parent: Option<u128>,
    /// Area that the layout gives to the node.
    pub area: Rect,
    pub content: NodeContent,
}

pub struct NodeView {
    pub id: u128,
    pub workspace: u128,
    pub parent: Option<u128>,
    pub area: Rect,
    pub content: NodeContentView,
}

impl View for Node {
    type V = NodeView;

    open spec fn view(&self) -> NodeView {
        NodeView {
            id: self.id,
            workspace: self.workspace,
            parent: self.parent,
            area: self.area,
            content: self.content@,
        }
    }
}

pub open spec fn nodes_view(nodes: Seq<Node>) -> Seq<NodeView> {
    nodes.map_values(|node: Node| node@)
}

impl NodeView {
    /// Whether the node takes part in the tiling: a split container or a tiling window.
    pub open spec fn is_tiling(self) -> bool {
        match self.content {
            NodeContentView::Split { .. } => true,
            NodeContentView::Window(window) => window.state == WindowState::Tiling,
        }
    }

    pub open spec fn window(self) -> Option<WindowView> {
        match self.content {
            NodeContentView::Split { .. } => None,
            NodeContentView::Window(window) => Some(window),
        }
    }

    /// The node with another window value.
    pub open spec fn with_window(self, window: WindowView) -> NodeView {
        NodeView { content: NodeContentView::Window(window), ..self }
    }
}

/// First position from `from` on of the node with the given identifier.
pub open spec fn node_position(nodes: Seq<NodeView>, id: u128, from: int) -> Option<int>
    decreases nodes.len() - from,
{
    if from < 0 || from >= nodes.len() {
        None
    } else if nodes[from].id == id {
        Some(from)
    } else {
        node_position(nodes, id, from + 1)
    }
}

/// First position from `from` on of the window with the given native handle.
pub open spec fn native_position(nodes: Seq<NodeView>, native: isize, from: int) -> Option<int>
    decreases nodes.len() - from,
{
    if from < 0 || from >= nodes.len() {
        None
    } else if nodes[from].window() is Some && nodes[from].window()->0.native == native {
        Some(from)
    } else {
        native_position(nodes, native, from + 1)
    }
}

/// Whether a workspace holds any node.
pub open spec fn has_nodes(nodes: Seq<NodeView>, workspace: u128) -> bool {
    exists|i: int| 0 <= i < nodes.len() && (#[trigger] nodes[i]).workspace == workspace
}

pub proof fn lemma_node_position(nodes: Seq<NodeView>, id: u128, from: int)
    requires
        0 <= from,
    ensures
        node_position(nodes, id, from) matches Some(at) ==> from <= at < nodes.len()
            && nodes[at].id == id,
    decreases nodes.len() - from,
{
    if from < nodes.len() {
        lemma_node_position(nodes, id, from + 1);
    }
}

pub fn find_node(nodes: &Vec<Node>, id: u128) -> (position: Option<usize>)
    ensures
        position_view(position) == node_position(nodes_view(nodes@), id, 0),
        position matches Some(at) ==> at < nodes@.len() && nodes@[at as int].id == id,
{
    let mut i: usize = 0;
    while i < nodes.len()
        invariant
            i <= nodes@.len(),
            node_position(nodes_view(nodes@), id, 0) == node_position(
                nodes_view(nodes@),
                id,
                i as int,
            ),
        decreases nodes@.len() - i,
    {
        assert(nodes_view(nodes@)[i as int] == nodes@[i as int]@);
        if nodes[i].id == id {
            return Some(i);
        }
        i = i + 1;
    }
    None
}

pub fn find_native(nodes: &Vec<Node>, native: isize) -> (position: Option<usize>)
    ensures
        position_view(position) == native_position(nodes_view(nodes@), native, 0),
        position matches Some(at) ==> at < nodes@.len() && nodes@[at as int]@.window() is Some,
{
    let mut i: usize = 0;
    while i < nodes.len()
        invariant
            i <= nodes@.len(),
            native_position(nodes_view(nodes@), native, 0) == native_position(
                nodes_view(nodes@),
                native,
                i as int,
            ),
        decreases nodes@.len() - i,
    {
        assert(nodes_view(nodes@)[i as int] == nodes@[i as int]@);
        match &nodes[i].content {
            NodeContent::Window(window) => {
                if window.native == native {
                    return Some(i);
                }
            },
            NodeContent::Split { .. } => {},
        }
        i = i + 1;
    }
    None
}

pub fn holds_nodes(nodes: &Vec<Node>, workspace: u128) -> (holds: bool)
    ensures
        holds == has_nodes(nodes_view(nodes@), workspace),
{
    let mut i: usize = 0;
    while i < nodes.len()
        invariant
            i <= nodes@.len(),
            forall|j: int| 0 <= j < i ==> (#[trigger] nodes_view(nodes@)[j]).workspace != workspace,
        decreases nodes@.len() - i,
    {
        assert(nodes_view(nodes@)[i as int] == nodes@[i as int]@);
        if nodes[i].workspace == workspace {
            return true;
        }
        i = i + 1;
    }
    false
}

/// Refers to a container by its kind and identifier.
#[derive(Clone, Copy, Debug, PartialEq, Eq, Structural)]
pub enum ContainerRef {
    Monitor(u128),
    Workspace(u128),
    Window(u128),
}

} // verus!
