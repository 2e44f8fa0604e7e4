//! Windows that are finished being moved or resized by the user.
use vstd::prelude::*;

use crate::config::{FullscreenStateConfig, WindowBehaviorConfig, WindowState};
use crate::container::{
    find_node, node_position, nodes_view, Node, NodeContent, NodeContentView, NodeView, Window,
    WindowView,
};
use crate::geometry::{Point, Rect, TilingDirection};
use crate::invariants::{
    keeps, lemma_keeps_itself, lemma_kept_valid, lemma_unrelated_keeps,
    lemma_window_change_stays_valid,
};
use crate::user_config::UserConfig;
use crate::wm_error::{outcome, WmError, WmErrorView};
use crate::wm_state::{monitor_at, StateView, WmState};

verus! {

/// Represents where the window was dropped over another.
#[derive(Clone, Copy, Debug, PartialEq, Eq, Structural)]
pub enum DropPosition {
    Top,
    Bottom,
    Left,
    Right,
}

/// Container that a window is dropped next to, and on which side of it.
#[derive(Clone, Copy, Debug, PartialEq, Eq, Structural)]
pub struct DropTarget {
    pub container: u128,
    pub position: DropPosition,
}

pub open spec fn magnitude(n: int) -> int {
    if n < 0 {
        -n
    } else {
        n
    }
}

/// Side of a rectangle whose triangle a point is in, of the four triangles that the diagonals of
/// the rectangle cut it into. Points on a diagonal belong to the top or bottom.
pub open spec fn drop_side(point: Point, rect: Rect) -> DropPosition {
    let delta_x = point.x - rect.spec_center().0;
    let delta_y = point.y - rect.spec_center().1;
    if magnitude(delta_x) * rect.spec_height() > magnitude(delta_y) * rect.spec_width() {
        if delta_x > 0 {
            DropPosition::Right
        } else {
            DropPosition::Left
        }
    } else if delta_y > 0 {
        DropPosition::Bottom
    } else {
        DropPosition::Top
    }
}

fn magnitude_of(n: i64) -> (size: i64)
    requires
        n > i64::MIN,
    ensures
        size == magnitude(n as int),
{
    if n < 0 {
        -n
    } else {
        n
    }
}

/// Gets the drop position for a window based on the mouse position.
///
/// This approach divides the window rect into an "X", creating four triangular quadrants, to
/// determine which side the cursor is closest to.
pub fn drop_position(mouse_pos: &Point, rect: &Rect) -> (position: DropPosition)
    ensures
        position == drop_side(*mouse_pos, *rect),
{
    let center = rect.center_point();
    let delta_x: i64 = mouse_pos.x as i64 - center.x as i64;
    let delta_y: i64 = mouse_pos.y as i64 - center.y as i64;
    let size_x: i64 = magnitude_of(delta_x);
    let size_y: i64 = magnitude_of(delta_y);
    let width: i64 = rect.width();
    let height: i64 = rect.height();
    assert(-0x1_0000_0000_0000_0000_0000 < size_x * height < 0x1_0000_0000_0000_0000_0000)
        by (nonlinear_arith)
        requires
            0 <= size_x < 0x1_0000_0000,
            -0x1_0000_0000 < height < 0x1_0000_0000,
    ;
    assert(-0x1_0000_0000_0000_0000_0000 < size_y * width < 0x1_0000_0000_0000_0000_0000)
        by (nonlinear_arith)
        requires
            0 <= size_y < 0x1_0000_0000,
            -0x1_0000_0000 < width < 0x1_0000_0000,
    ;
    if size_x as i128 * height as i128 > size_y as i128 * width as i128 {
        // Window is in the left or right triangle.
        if delta_x > 0 {
            DropPosition::Right
        } else {
            DropPosition::Left
        }
    } else if delta_y > 0 {
        // Window is in the top or bottom triangle.
        DropPosition::Bottom
    } else {
        DropPosition::Top
    }
}

/// Number of split containers that a child of the given container is in, at most `limit`.
pub open spec fn depth(nodes: Seq<NodeView>, container: Option<u128>, limit: nat) -> nat
    decreases limit,
{
    if limit == 0 {
        0
    } else {
        match container {
            Some(id) => match node_position(nodes, id, 0) {
                Some(at) => 1 + depth(nodes, nodes[at].parent, (limit - 1) as nat),
                None => 0,
            },
            None => 0,
        }
    }
}

fn depth_of(nodes: &Vec<Node>, container: Option<u128>) -> (result: usize)
    ensures
        result == depth(nodes_view(nodes@), container, nodes@.len()),
{
    let mut current = container;
    let mut counted: usize = 0;
    while counted < nodes.len()
        invariant
            counted <= nodes@.len(),
            depth(nodes_view(nodes@), container, nodes@.len()) == counted + depth(
                nodes_view(nodes@),
                current,
                (nodes@.len() - counted) as nat,
            ),
        decreases nodes@.len() - counted,
    {
        match current {
            Some(id) => match find_node(nodes, id) {
                Some(at) => {
                    assert(nodes_view(nodes@)[at as int] == nodes@[at as int]@);
                    current = nodes[at].parent;
                    counted = counted + 1;
                },
                None => {
                    return counted;
                },
            },
            None => {
                return counted;
            },
        }
    }
    counted
}

/// Whether a node is a split container of a workspace that contains a point.
pub open spec fn is_split_at(node: NodeView, workspace: u128, point: Point) -> bool {
    node.workspace == workspace && node.content is Split && node.area.spec_contains(point)
}

/// The deepest container among a given one and the split containers at a point from `from` on.
/// `None` stands for the workspace itself.
pub open spec fn deepest_container(
    nodes: Seq<NodeView>,
    workspace: u128,
    point: Point,
    excluded: u128,
    found: Option<u128>,
    from: int,
) -> Option<u128>
    decreases nodes.len() - from,
{
    if from < 0 || from >= nodes.len() {
        found
    } else {
        let node = nodes[from];
        let is_deeper = is_split_at(node, workspace, point) && node.id != excluded && depth(
            nodes,
            Some(node.id),
            nodes.len(),
        ) > depth(nodes, found, nodes.len());
        deepest_container(
            nodes,
            workspace,
            point,
            excluded,
            if is_deeper {
                Some(node.id)
            } else {
                found
            },
            from + 1,
        )
    }
}

/// Whether a node is a tiling child of a container, other than the excluded window.
pub open spec fn is_drop_candidate(
    node: NodeView,
    workspace: u128,
    parent: Option<u128>,
    excluded: u128,
) -> bool {
    node.workspace == workspace && node.parent == parent && node.id != excluded
        && node.is_tiling()
}

/// Position of the node nearest to a point among a given one and the candidates from `from` on.
/// Of equally near ones, the last is taken.
pub open spec fn nearest_candidate(
    nodes: Seq<NodeView>,
    workspace: u128,
    parent: Option<u128>,
    point: Point,
    excluded: u128,
    found: Option<int>,
    from: int,
) -> Option<int>
    decreases nodes.len() - from,
{
    if from < 0 || from >= nodes.len() {
        found
    } else {
        let is_candidate = is_drop_candidate(nodes[from], workspace, parent, excluded);
        let is_nearer = match found {
            Some(best) => !(nodes[best].area.spec_distance(point)
                < nodes[from].area.spec_distance(point)),
            None => true,
        };
        nearest_candidate(
            nodes,
            workspace,
            parent,
            point,
            excluded,
            if is_candidate && is_nearer {
                Some(from)
            } else {
                found
            },
            from + 1,
        )
    }
}

/// Node that a window is dropped next to, and on which side of it.
pub open spec fn drop_target(
    nodes: Seq<NodeView>,
    workspace: u128,
    point: Point,
    excluded: u128,
) -> Option<DropTarget> {
    let parent = deepest_container(nodes, workspace, point, excluded, None, 0);
    match nearest_candidate(nodes, workspace, parent, point, excluded, None, 0) {
        Some(at) => Some(
            DropTarget {
                container: nodes[at].id,
                position: drop_side(point, nodes[at].area),
            },
        ),
        None => None,
    }
}

fn node_is_tiling(node: &Node) -> (tiling: bool)
    ensures
        tiling == node@.is_tiling(),
{
    match &node.content {
        NodeContent::Split { .. } => true,
        NodeContent::Window(window) => window.state == WindowState::Tiling,
    }
}

fn node_is_split(node: &Node) -> (split: bool)
    ensures
        split == (node@.content is Split),
{
    match &node.content {
        NodeContent::Split { .. } => true,
        NodeContent::Window(_) => false,
    }
}

fn find_deepest_container(
    nodes: &Vec<Node>,
    workspace: u128,
    point: &Point,
    excluded: u128,
) -> (container: Option<u128>)
    ensures
        container == deepest_container(
            nodes_view(nodes@),
            workspace,
            *point,
            excluded,
            None,
            0,
        ),
{
    let ghost all = nodes_view(nodes@);
    let mut found: Option<u128> = None;
    let mut i: usize = 0;
    while i < nodes.len()
        invariant
            i <= nodes@.len(),
            all == nodes_view(nodes@),
            deepest_container(all, workspace, *point, excluded, None, 0) == deepest_container(
                all,
                workspace,
                *point,
                excluded,
                found,
                i as int,
            ),
        decreases nodes@.len() - i,
    {
        let node = &nodes[i];
        assert(all[i as int] == node@);
        if node.workspace == workspace && node_is_split(node) && node.area.contains_point(point)
            && node.id != excluded && depth_of(nodes, Some(node.id)) > depth_of(nodes, found) {
            found = Some(node.id);
        }
        i = i + 1;
    }
    found
}

fn find_nearest_candidate(
    nodes: &Vec<Node>,
    workspace: u128,
    parent: Option<u128>,
    point: &Point,
    excluded: u128,
) -> (position: Option<usize>)
    ensures
        crate::monitor::position_view(position) == nearest_candidate(
            nodes_view(nodes@),
            workspace,
            parent,
            *point,
            excluded,
            None,
            0,
        ),
        position matches Some(at) ==> at < nodes@.len(),
{
    let ghost all = nodes_view(nodes@);
    let mut found: Option<usize> = None;
    let mut i: usize = 0;
    while i < nodes.len()
        invariant
            i <= nodes@.len(),
            all == nodes_view(nodes@),
            found matches Some(at) ==> at < nodes@.len(),
            nearest_candidate(all, workspace, parent, *point, excluded, None, 0)
                == nearest_candidate(
                all,
                workspace,
                parent,
                *point,
                excluded,
                crate::monitor::position_view(found),
                i as int,
            ),
        decreases nodes@.len() - i,
    {
        let node = &nodes[i];
        assert(all[i as int] == node@);
        if node.workspace == workspace && node.parent == parent && node.id != excluded
            && node_is_tiling(node) {
            let is_nearer = match found {
                Some(best) => {
                    assert(all[best as int] == nodes@[best as int]@);
                    !(nodes[best].area.distance_to_point(point) < node.area.distance_to_point(
                        point,
                    ))
                },
                None => true,
            };
            if is_nearer {
                found = Some(i);
            }
        }
        i = i + 1;
    }
    found
}

/// Finds the tiling container nearest to the cursor within the deepest direction container
/// under it, along with where the cursor is relative to that container.
///
/// The moved window is excluded, since it may already be tiled again at its previous position.
///
/// Returns `None` if the workspace has no other tiling containers.
pub fn find_drop_target(
    mouse_workspace: u128,
    mouse_pos: &Point,
    moved_window_id: u128,
    state: &WmState,
) -> (target: Option<DropTarget>)
    ensures
        target == drop_target(state@.nodes, mouse_workspace, *mouse_pos, moved_window_id),
{
    // Get the deepest direction container under the dragged window.
    let target_parent = find_deepest_container(
        &state.nodes,
        mouse_workspace,
        mouse_pos,
        moved_window_id,
    );
    match find_nearest_candidate(
        &state.nodes,
        mouse_workspace,
        target_parent,
        mouse_pos,
        moved_window_id,
    ) {
        Some(at) => {
            assert(state@.nodes[at as int] == state.nodes@[at as int]@);
            let nearest = &state.nodes[at];
            Some(
                DropTarget {
                    container: nearest.id,
                    position: drop_position(mouse_pos, &nearest.area),
                },
            )
        },
        None => None,
    }
}

/// How a window is inserted next to a container.
#[derive(Clone, Copy, Debug, PartialEq, Eq, Structural)]
pub enum InsertPlan {
    /// As a child of a container, at the given index. `None` stands for the workspace.
    Sibling { parent: Option<u128>, index: usize },
    /// Together with the container in a new split container, at the given index.
    Split { wrapped: u128, tiling_direction: TilingDirection, index: usize },
}

/// Whether a drop position is perpendicular to a tiling direction.
pub open spec fn is_perpendicular(direction: TilingDirection, position: DropPosition) -> bool {
    match direction {
        TilingDirection::Horizontal => position == DropPosition::Top || position
            == DropPosition::Bottom,
        TilingDirection::Vertical => position == DropPosition::Left || position
            == DropPosition::Right,
    }
}

/// Whether a drop position comes before the container that it is relative to.
pub open spec fn is_leading(position: DropPosition) -> bool {
    position == DropPosition::Top || position == DropPosition::Left
}

/// Number of children of a container among the first `count` nodes.
pub open spec fn child_count(
    nodes: Seq<NodeView>,
    workspace: u128,
    parent: Option<u128>,
    count: nat,
) -> nat
    decreases count,
{
    if count == 0 {
        0
    } else {
        let rest = child_count(nodes, workspace, parent, (count - 1) as nat);
        if nodes[count - 1].workspace == workspace && nodes[count - 1].parent == parent {
            rest + 1
        } else {
            rest
        }
    }
}

/// How a window is inserted next to the node at a position.
pub open spec fn insert_plan(
    nodes: Seq<NodeView>,
    at: int,
    direction: TilingDirection,
    position: DropPosition,
) -> InsertPlan {
    let nearest = nodes[at];
    if nearest.content is Window && nearest.is_tiling() && is_perpendicular(direction, position) {
        InsertPlan::Split {
            wrapped: nearest.id,
            tiling_direction: direction.spec_inverse(),
            index: if is_leading(position) {
                0
            } else {
                1
            },
        }
    } else {
        let index = child_count(nodes, nearest.workspace, nearest.parent, at as nat);
        InsertPlan::Sibling {
            parent: nearest.parent,
            index: if is_leading(position) {
                index as usize
            } else {
                (index + 1) as usize
            },
        }
    }
}

/// Decides how to insert the dropped window next to the nearest container, either as a sibling
/// or wrapped together with it in a new split container if the drop position is perpendicular
/// to the parent's tiling direction.
pub fn insert_next_to(
    nearest_container: usize,
    tiling_direction: TilingDirection,
    drop_position: DropPosition,
    state: &WmState,
) -> (plan: InsertPlan)
    requires
        nearest_container < state.nodes@.len(),
    ensures
        plan == insert_plan(
            state@.nodes,
            nearest_container as int,
            tiling_direction,
            drop_position,
        ),
{
    let nearest = &state.nodes[nearest_container];
    assert(state@.nodes[nearest_container as int] == nearest@);
    let is_perpendicular = match tiling_direction {
        TilingDirection::Horizontal => drop_position == DropPosition::Top || drop_position
            == DropPosition::Bottom,
        TilingDirection::Vertical => drop_position == DropPosition::Left || drop_position
            == DropPosition::Right,
    };
    let is_leading = drop_position == DropPosition::Top || drop_position == DropPosition::Left;
    let should_split = !node_is_split(nearest) && node_is_tiling(nearest) && is_perpendicular;
    if should_split {
        let index: usize = if is_leading {
            0
        } else {
            1
        };
        InsertPlan::Split {
            wrapped: nearest.id,
            tiling_direction: tiling_direction.inverse(),
            index,
        }
    } else {
        let node_count = state.nodes.len();
        let mut index: usize = 0;
        let mut i: usize = 0;
        while i < nearest_container
            invariant
                i <= nearest_container < node_count,
                node_count == state.nodes@.len(),
                state@.nodes[nearest_container as int] == nearest@,
                index == child_count(
                    state@.nodes,
                    nearest@.workspace,
                    nearest@.parent,
                    i as nat,
                ),
                index <= i,
            decreases nearest_container - i,
        {
            assert(state@.nodes[i as int] == state.nodes@[i as int]@);
            if state.nodes[i].workspace == nearest.workspace && state.nodes[i].parent
                == nearest.parent {
                index = index + 1;
            }
            i = i + 1;
        }
        let index: usize = if is_leading {
            index
        } else {
            index + 1
        };
        InsertPlan::Sibling { parent: nearest.parent, index }
    }
}

/// Where a dragged window is dropped, as the user saw the layout during the drag.
#[derive(Clone, Copy, Debug, PartialEq, Eq, Structural)]
pub struct WindowDrop {
    pub window: u128,
    /// Workspace under the cursor.
    pub workspace: u128,
    /// Container to drop the window next to.
    pub target: DropTarget,
}

/// Workspace that a window is dropped on: the one displayed under the cursor, or else the
/// window's own.
pub open spec fn drop_workspace(state: StateView, window: u128, point: Point) -> Option<u128> {
    let under_cursor = match monitor_at(state.monitors, point, 0) {
        Some(monitor) => match state.monitors[monitor].displayed() {
            Some(at) => Some(state.monitors[monitor].workspaces[at].id),
            None => None,
        },
        None => None,
    };
    match under_cursor {
        Some(workspace) => Some(workspace),
        None => match node_position(state.nodes, window, 0) {
            Some(at) => Some(state.nodes[at].workspace),
            None => None,
        },
    }
}

/// Finds the workspace that a window is dropped on.
fn find_drop_workspace(window: u128, mouse_pos: &Point, state: &WmState) -> (workspace: Option<
    u128,
>)
    ensures
        workspace == drop_workspace(state@, window, *mouse_pos),
{
    let under_cursor = match state.monitor_at_point(mouse_pos) {
        Some(monitor) => {
            assert(state@.monitors[monitor as int] == state.monitors@[monitor as int]@);
            match state.monitors[monitor].displayed_workspace() {
                Some(at) => {
                    assert(state@.monitors[monitor as int].workspaces[at as int]
                        == state.monitors@[monitor as int].workspaces@[at as int]@);
                    Some(state.monitors[monitor].workspaces[at].id)
                },
                None => None,
            }
        },
        None => None,
    };
    match under_cursor {
        Some(workspace) => Some(workspace),
        None => match find_node(&state.nodes, window) {
            Some(at) => {
                assert(state@.nodes[at as int] == state.nodes@[at as int]@);
                Some(state.nodes[at].workspace)
            },
            None => None,
        },
    }
}

/// What is to be done with a dropped window.
#[derive(Clone, Copy, Debug, PartialEq, Eq, Structural)]
pub enum DropPlan {
    /// There is nothing to drop next to: make the window the first child of the workspace, and
    /// tile it.
    AddToWorkspace { workspace: u128 },
    /// Tile the window. `insert_dropped_window` then says where it goes.
    Retile(WindowDrop),
}

/// The state with a window's insertion target cleared.
pub open spec fn without_insertion_target(state: StateView, id: u128) -> StateView {
    match node_position(state.nodes, id, 0) {
        Some(at) => match state.nodes[at].window() {
            Some(window) => state.set_window(at, WindowView { insertion_target: None, ..window }),
            None => state,
        },
        None => state,
    }
}

/// What is to be done with a dropped window. A window that is dropped on an empty workspace has
/// no insertion target any more.
pub open spec fn dropped(state: StateView, window: u128, point: Point) -> (
    StateView,
    Result<DropPlan, WmErrorView>,
) {
    match drop_workspace(state, window, point) {
        None => (state, Err(WmErrorView::NoDropWorkspace)),
        Some(workspace) => match drop_target(state.nodes, workspace, point, window) {
            None => (
                without_insertion_target(state, window),
                Ok(DropPlan::AddToWorkspace { workspace }),
            ),
            Some(target) => (
                state,
                Ok(DropPlan::Retile(WindowDrop { window, workspace, target })),
            ),
        },
    }
}

fn clear_insertion_target(id: u128, state: &mut WmState)
    ensures
        final(state)@ == without_insertion_target(old(state)@, id),
        old(state)@.is_valid() ==> final(state)@.is_valid(),
{
    if let Some(at) = find_node(&state.nodes, id) {
        assert(state@.nodes[at as int] == state.nodes@[at as int]@);
        match &mut state.nodes[at].content {
            NodeContent::Window(window) => {
                window.insertion_target = None;
            },
            NodeContent::Split { .. } => {},
        }
        assert(state@.nodes =~= without_insertion_target(old(state)@, id).nodes);
        proof {
            let before = old(state)@;
            if before.is_valid() && before.nodes[at as int].window() is Some {
                lemma_window_change_stays_valid(
                    before,
                    at as int,
                    WindowView { insertion_target: None, ..before.nodes[at as int].window()->0 },
                );
            }
        }
    }
}

/// Handles transition from temporary floating window to tiling window on drag end.
///
/// The drop target is determined from the layout as the user saw it during the drag, i.e.
/// before the moved window is tiled again.
pub fn drop_as_tiling_window(window: u128, mouse_pos: &Point, state: &mut WmState) -> (result:
    Result<DropPlan, WmError>)
    ensures
        final(state)@ == dropped(old(state)@, window, *mouse_pos).0,
        outcome(result) == dropped(old(state)@, window, *mouse_pos).1,
        old(state)@.is_valid() ==> final(state)@.is_valid(),
{
    let workspace = match find_drop_workspace(window, mouse_pos, state) {
        Some(workspace) => workspace,
        None => {
            return Err(WmError::NoDropWorkspace);
        },
    };
    match find_drop_target(workspace, mouse_pos, window, state) {
        Some(target) => Ok(DropPlan::Retile(WindowDrop { window, workspace, target })),
        None => {
            // If there's nothing to drop next to (i.e. an empty workspace), then add the window
            // directly.
            clear_insertion_target(window, state);
            Ok(DropPlan::AddToWorkspace { workspace })
        },
    }
}

/// Tiling direction of the container that a node is a child of.
pub open spec fn parent_direction(state: StateView, node: NodeView) -> Option<TilingDirection> {
    match node.parent {
        Some(id) => match node_position(state.nodes, id, 0) {
            Some(at) => match state.nodes[at].content {
                NodeContentView::Split { tiling_direction } => Some(tiling_direction),
                NodeContentView::Window(_) => None,
            },
            None => None,
        },
        None => match state.locate(node.workspace) {
            Some(place) => Some(state.workspace(place).tiling_direction),
            None => None,
        },
    }
}

/// Identifier of the container that a node is a child of.
pub open spec fn parent_id(node: NodeView) -> u128 {
    match node.parent {
        Some(id) => id,
        None => node.workspace,
    }
}

/// Target of a drop once the window is tiled again: the one found before, or another one if
/// that container is gone.
pub open spec fn current_target(state: StateView, drop: WindowDrop, point: Point) -> Option<
    DropTarget,
> {
    if node_position(state.nodes, drop.target.container, 0) is Some {
        Some(drop.target)
    } else {
        drop_target(state.nodes, drop.workspace, point, drop.window)
    }
}

/// Where a dropped window that is tiled again is inserted, if it doesn't stay where it is, and
/// the state with the container that it is inserted into redrawn.
pub open spec fn inserted(state: StateView, drop: WindowDrop, point: Point) -> (
    StateView,
    Result<Option<InsertPlan>, WmErrorView>,
) {
    match current_target(state, drop, point) {
        None => (state, Ok(None)),
        Some(target) => {
            let at = node_position(state.nodes, target.container, 0)->0;
            let node = state.nodes[at];
            match parent_direction(state, node) {
                Some(direction) => (
                    state.redraw(parent_id(node)),
                    Ok(Some(insert_plan(state.nodes, at, direction, target.position))),
                ),
                None => (state, Err(WmErrorView::NoDropParent)),
            }
        },
    }
}

fn parent_direction_of(node: &Node, state: &WmState) -> (direction: Option<TilingDirection>)
    ensures
        direction == parent_direction(state@, node@),
{
    match node.parent {
        Some(id) => match find_node(&state.nodes, id) {
            Some(at) => {
                assert(state@.nodes[at as int] == state.nodes@[at as int]@);
                match &state.nodes[at].content {
                    NodeContent::Split { tiling_direction } => Some(*tiling_direction),
                    NodeContent::Window(_) => None,
                }
            },
            None => None,
        },
        None => match state.locate(node.workspace) {
            Some((monitor, at)) => {
                assert(state@.workspace((monitor as int, at as int))
                    == state.monitors@[monitor as int].workspaces@[at as int]@);
                Some(state.monitors[monitor].workspaces[at].tiling_direction)
            },
            None => None,
        },
    }
}

/// A node that is a drop target is among the nodes.
pub proof fn lemma_drop_target(nodes: Seq<NodeView>, workspace: u128, point: Point, excluded: u128)
    ensures
        drop_target(nodes, workspace, point, excluded) matches Some(target) ==> node_position(
            nodes,
            target.container,
            0,
        ) is Some,
{
    let parent = deepest_container(nodes, workspace, point, excluded, None, 0);
    lemma_nearest_candidate(nodes, workspace, parent, point, excluded, None, 0);
    if let Some(at) = nearest_candidate(nodes, workspace, parent, point, excluded, None, 0) {
        lemma_node_is_found(nodes, at, 0);
    }
}

pub proof fn lemma_node_is_found(nodes: Seq<NodeView>, at: int, from: int)
    requires
        0 <= from <= at < nodes.len(),
    ensures
        node_position(nodes, nodes[at].id, from) is Some,
    decreases at - from,
{
    if from < at {
        lemma_node_is_found(nodes, at, from + 1);
    }
}

/// A nearest candidate is one of the candidates, unless the given one is.
proof fn lemma_nearest_candidate(
    nodes: Seq<NodeView>,
    workspace: u128,
    parent: Option<u128>,
    point: Point,
    excluded: u128,
    found: Option<int>,
    from: int,
)
    requires
        0 <= from,
        found matches Some(at) ==> 0 <= at < nodes.len() && is_drop_candidate(
            nodes[at],
            workspace,
            parent,
            excluded,
        ),
    ensures
        nearest_candidate(
            nodes,
            workspace,
            parent,
            point,
            excluded,
            found,
            from,
        ) matches Some(at) ==> 0 <= at < nodes.len() && is_drop_candidate(
            nodes[at],
            workspace,
            parent,
            excluded,
        ),
    decreases nodes.len() - from,
{
    if from < nodes.len() {
        let is_candidate = is_drop_candidate(nodes[from], workspace, parent, excluded);
        let is_nearer = match found {
            Some(best) => !(nodes[best].area.spec_distance(point)
                < nodes[from].area.spec_distance(point)),
            None => true,
        };
        lemma_nearest_candidate(
            nodes,
            workspace,
            parent,
            point,
            excluded,
            if is_candidate && is_nearer {
                Some(from)
            } else {
                found
            },
            from + 1,
        );
    }
}

/// A window is never dropped next to itself, and only next to a tiling container of the
/// workspace under the cursor.
pub proof fn law_drop_target_is_another_tiling_container(
    nodes: Seq<NodeView>,
    workspace: u128,
    point: Point,
    window: u128,
    target: DropTarget,
)
    requires
        drop_target(nodes, workspace, point, window) == Some(target),
    ensures
        target.container != window,
        exists|at: int|
            0 <= at < nodes.len() && (#[trigger] nodes[at]).id == target.container && nodes[at].workspace
                == workspace && nodes[at].is_tiling(),
{
    let parent = deepest_container(nodes, workspace, point, window, None, 0);
    lemma_nearest_candidate(nodes, workspace, parent, point, window, None, 0);
}

/// Decides where a dropped window goes, once it is tiled again.
///
/// Tiling the window again (at its previous position) flattens split containers that became
/// redundant during the drag, which detaches them and moves their children up. The nearest
/// container's parent is therefore only resolved now. If the nearest container was flattened
/// itself, the drop target is determined anew from the current layout.
///
/// Returns `None` if there is nothing to drop next to; the window is tiled already.
pub fn insert_dropped_window(drop: &WindowDrop, mouse_pos: &Point, state: &mut WmState) -> (result:
    Result<Option<InsertPlan>, WmError>)
    ensures
        final(state)@ == inserted(old(state)@, *drop, *mouse_pos).0,
        outcome(result) == inserted(old(state)@, *drop, *mouse_pos).1,
        keeps(old(state)@, final(state)@, 0),
{
    proof {
        lemma_keeps_itself(state@);
    }
    let target = drop.target;
    let (at, position) = match find_node(&state.nodes, target.container) {
        Some(at) => (at, target.position),
        None => match find_drop_target(drop.workspace, mouse_pos, drop.window, state) {
            Some(target) => {
                proof {
                    lemma_drop_target(state@.nodes, drop.workspace, *mouse_pos, drop.window);
                }
                match find_node(&state.nodes, target.container) {
                    Some(at) => (at, target.position),
                    None => {
                        return Ok(None);
                    },
                }
            },
            None => {
                return Ok(None);
            },
        },
    };
    assert(state@.nodes[at as int] == state.nodes@[at as int]@);
    let direction = match parent_direction_of(&state.nodes[at], state) {
        Some(direction) => direction,
        None => {
            return Err(WmError::NoDropParent);
        },
    };
    let plan = insert_next_to(at, direction, position, state);
    let target_parent = match state.nodes[at].parent {
        Some(id) => id,
        None => state.nodes[at].workspace,
    };
    state.pending_sync.queue_container_to_redraw(target_parent);
    proof {
        lemma_unrelated_keeps(old(state)@, state@);
    }
    Ok(Some(plan))
}

/// What the platform knows about a window when its drag ends.
#[derive(Clone, Copy, Debug, PartialEq, Eq, Structural)]
pub struct DragEndQuery {
    /// Whether the native window is maximized. `None` if this can't be determined.
    pub is_maximized: Option<bool>,
    /// Position of the monitor that the native window is nearest to.
    pub nearest_monitor: Option<usize>,
    /// Whether the window covers the workspace displayed on that monitor.
    pub should_fullscreen: bool,
}

/// What is to be done with a window whose drag ended.
#[derive(Clone, Copy, Debug, PartialEq, Eq, Structural)]
pub enum DragEndAction {
    Ignore,
    /// Make the window fullscreen.
    SetFullscreen { window: u128, state: FullscreenStateConfig },
    /// Keep the window floating, at its frame on the given monitor.
    MoveFloating { window: u128, frame: Rect, monitor: usize },
    /// Revert a temporary floating window back to tiling.
    DropAsTiling { window: u128 },
    /// Resize the window to its frame.
    Resize { window: u128, width: i64, height: i64 },
}

impl StateView {
    /// The state with another value of the window at a position.
    pub open spec fn set_window(self, at: int, window: WindowView) -> StateView {
        StateView { nodes: self.nodes.update(at, self.nodes[at].with_window(window)), ..self }
    }
}

/// Fullscreen state of a window whose drag ended: its current one, or the default.
pub open spec fn dragged_fullscreen(
    state: WindowState,
    behavior: WindowBehaviorConfig,
    is_maximized: bool,
) -> FullscreenStateConfig {
    let current = match state {
        WindowState::Fullscreen(current) => current,
        _ => behavior.state_defaults.fullscreen,
    };
    FullscreenStateConfig { maximized: is_maximized, ..current }
}

/// What is to be done with a floating window whose drag ended.
pub open spec fn floating_drag_ended(
    state: StateView,
    behavior: WindowBehaviorConfig,
    at: int,
    is_from_floating: bool,
    query: DragEndQuery,
) -> (StateView, Result<DragEndAction, WmErrorView>) {
    let id = state.nodes[at].id;
    let window = state.nodes[at].window()->0;
    match query.is_maximized {
        None => (state, Ok(DragEndAction::Ignore)),
        Some(is_maximized) => {
            let next = state.set_window(at, WindowView { is_maximized, ..window });
            match query.nearest_monitor {
                None => (next, Err(WmErrorView::NoNearestMonitor)),
                Some(monitor) => if state.monitors[monitor as int].displayed() is None {
                    (next, Err(WmErrorView::NoDisplayedWorkspace))
                } else if is_maximized || query.should_fullscreen {
                    (
                        next,
                        Ok(
                            DragEndAction::SetFullscreen {
                                window: id,
                                state: dragged_fullscreen(window.state, behavior, is_maximized),
                            },
                        ),
                    )
                } else if is_from_floating {
                    (
                        next,
                        Ok(
                            DragEndAction::MoveFloating {
                                window: id,
                                frame: window.frame,
                                monitor,
                            },
                        ),
                    )
                } else {
                    (next, Ok(DragEndAction::DropAsTiling { window: id }))
                },
            }
        },
    }
}

/// What is to be done with a window whose drag ended.
pub open spec fn drag_ended(
    state: StateView,
    behavior: WindowBehaviorConfig,
    id: u128,
    query: DragEndQuery,
) -> (StateView, Result<DragEndAction, WmErrorView>) {
    match node_position(state.nodes, id, 0) {
        None => (state, Ok(DragEndAction::Ignore)),
        Some(at) => match state.nodes[at].window() {
            None => (state, Ok(DragEndAction::Ignore)),
            Some(window) => match window.active_drag {
                None => (state, Ok(DragEndAction::Ignore)),
                Some(drag) => if window.state == WindowState::Tiling {
                    (
                        state,
                        Ok(
                            DragEndAction::Resize {
                                window: id,
                                width: window.frame.spec_width() as i64,
                                height: window.frame.spec_height() as i64,
                            },
                        ),
                    )
                } else {
                    floating_drag_ended(state, behavior, at, drag.is_from_floating, query)
                },
            },
        },
    }
}

fn set_is_maximized(nodes: &mut Vec<Node>, at: usize, is_maximized: bool)
    requires
        at < old(nodes)@.len(),
        old(nodes)@[at as int]@.window() is Some,
    ensures
        nodes_view(final(nodes)@) == nodes_view(old(nodes)@).update(
            at as int,
            old(nodes)@[at as int]@.with_window(
                WindowView { is_maximized, ..old(nodes)@[at as int]@.window()->0 },
            ),
        ),
{
    match &mut nodes[at].content {
        NodeContent::Window(window) => {
            window.is_maximized = is_maximized;
        },
        NodeContent::Split { .. } => {},
    }
    assert(nodes_view(nodes@) =~= nodes_view(old(nodes)@).update(
        at as int,
        old(nodes)@[at as int]@.with_window(
            WindowView { is_maximized, ..old(nodes)@[at as int]@.window()->0 },
        ),
    ));
}

/// Handles the event for when a window is finished being moved or resized by the user (e.g. via
/// the window's drag handles).
///
/// Decides what is to be done with the window. Once that is done, `finish_drag` ends the drag.
pub fn handle_window_moved_or_resized_end(
    window_id: u128,
    query: &DragEndQuery,
    state: &mut WmState,
    config: &UserConfig,
) -> (result: Result<DragEndAction, WmError>)
    requires
        query.nearest_monitor matches Some(monitor) ==> monitor < old(state).monitors@.len(),
    ensures
        final(state)@ == drag_ended(
            old(state)@,
            config.value.window_behavior,
            window_id,
            *query,
        ).0,
        outcome(result) == drag_ended(
            old(state)@,
            config.value.window_behavior,
            window_id,
            *query,
        ).1,
        old(state)@.is_valid() ==> final(state)@.is_valid(),
{
    let at = match find_node(&state.nodes, window_id) {
        Some(at) => at,
        None => {
            return Ok(DragEndAction::Ignore);
        },
    };
    assert(state@.nodes[at as int] == state.nodes@[at as int]@);
    let (active_drag, window_state, frame) = match &state.nodes[at].content {
        NodeContent::Window(window) => (window.active_drag, window.state, window.frame),
        NodeContent::Split { .. } => {
            return Ok(DragEndAction::Ignore);
        },
    };
    let drag = match active_drag {
        Some(drag) => drag,
        None => {
            return Ok(DragEndAction::Ignore);
        },
    };
    if window_state == WindowState::Tiling {
        // Update the window's size based on the new frame position. This means we use the
        // actual window dimensions as the source of truth.
        return Ok(
            DragEndAction::Resize {
                window: window_id,
                width: frame.width(),
                height: frame.height(),
            },
        );
    }
    let is_maximized = match query.is_maximized {
        Some(is_maximized) => is_maximized,
        None => {
            return Ok(DragEndAction::Ignore);
        },
    };
    set_is_maximized(&mut state.nodes, at, is_maximized);
    proof {
        let before = old(state)@;
        if before.is_valid() {
            lemma_window_change_stays_valid(
                before,
                at as int,
                WindowView { is_maximized, ..before.nodes[at as int].window()->0 },
            );
        }
    }
    let monitor = match query.nearest_monitor {
        Some(monitor) => monitor,
        None => {
            return Err(WmError::NoNearestMonitor);
        },
    };
    assert(state@.monitors[monitor as int] == state.monitors@[monitor as int]@);
    if state.monitors[monitor].displayed_workspace().is_none() {
        return Err(WmError::NoDisplayedWorkspace);
    }
    if is_maximized || query.should_fullscreen {
        let fullscreen_state = match window_state {
            WindowState::Fullscreen(fullscreen_state) => fullscreen_state,
            _ => config.value.window_behavior.state_defaults.fullscreen,
        };
        return Ok(
            DragEndAction::SetFullscreen {
                window: window_id,
                state: FullscreenStateConfig {
                    maximized: is_maximized,
                    shown_on_top: fullscreen_state.shown_on_top,
                },
            },
        );
    }
    if drag.is_from_floating {
        Ok(DragEndAction::MoveFloating { window: window_id, frame, monitor })
    } else {
        // Window is a temporary floating window that should be reverted back to tiling.
        Ok(DragEndAction::DropAsTiling { window: window_id })
    }
}

/// The state with the drag of a window ended.
pub open spec fn without_drag(state: StateView, id: u128) -> StateView {
    match node_position(state.nodes, id, 0) {
        Some(at) => match state.nodes[at].window() {
            Some(window) => state.set_window(at, WindowView { active_drag: None, ..window }),
            None => state,
        },
        None => state,
    }
}

/// The state after what a drag's end asked for is done.
pub open spec fn drag_finished(state: StateView, action: DragEndAction) -> StateView {
    match action {
        DragEndAction::Ignore => state,
        DragEndAction::SetFullscreen { window, state: fullscreen } => {
            let next = without_drag(state, window);
            if fullscreen.maximized {
                next.sync(next.pending_sync.no_redraw(window))
            } else {
                next.redraw(window)
            }
        },
        DragEndAction::MoveFloating { window, .. } => without_drag(state, window),
        DragEndAction::DropAsTiling { window } => without_drag(state, window),
        DragEndAction::Resize { window, .. } => without_drag(state, window).redraw(window),
    }
}

fn end_drag(id: u128, state: &mut WmState)
    ensures
        final(state)@ == without_drag(old(state)@, id),
        old(state)@.is_valid() ==> final(state)@.is_valid(),
{
    if let Some(at) = find_node(&state.nodes, id) {
        assert(state@.nodes[at as int] == state.nodes@[at as int]@);
        match &mut state.nodes[at].content {
            NodeContent::Window(window) => {
                window.active_drag = None;
            },
            NodeContent::Split { .. } => {},
        }
        assert(state@.nodes =~= without_drag(old(state)@, id).nodes);
        proof {
            let before = old(state)@;
            if before.is_valid() && before.nodes[at as int].window() is Some {
                lemma_window_change_stays_valid(
                    before,
                    at as int,
                    WindowView { active_drag: None, ..before.nodes[at as int].window()->0 },
                );
            }
        }
    }
}

/// Ends the drag of a window, once what it asked for is done.
pub fn finish_drag(action: &DragEndAction, state: &mut WmState)
    ensures
        final(state)@ == drag_finished(old(state)@, *action),
        old(state)@.is_valid() ==> final(state)@.is_valid(),
{
    let ghost ended = match *action {
        DragEndAction::Ignore => state@,
        DragEndAction::SetFullscreen { window, .. } => without_drag(state@, window),
        DragEndAction::MoveFloating { window, .. } => without_drag(state@, window),
        DragEndAction::DropAsTiling { window } => without_drag(state@, window),
        DragEndAction::Resize { window, .. } => without_drag(state@, window),
    };
    match action {
        DragEndAction::Ignore => {},
        DragEndAction::SetFullscreen { window, state: fullscreen } => {
            end_drag(*window, state);
            if fullscreen.maximized {
                // Dequeue the window from redraw if it's maximized, since the window is already
                // in the correct state.
                state.pending_sync.dequeue_container_from_redraw(*window);
            } else {
                // Force a redraw to snap the window to the monitor edges.
                state.pending_sync.queue_container_to_redraw(*window);
            }
        },
        DragEndAction::MoveFloating { window, .. } => {
            end_drag(*window, state);
        },
        DragEndAction::DropAsTiling { window } => {
            end_drag(*window, state);
        },
        DragEndAction::Resize { window, .. } => {
            end_drag(*window, state);
            // Force a redraw of the window to snap it back to its original position. This is
            // necessary when:
            // - The window is the only tiling window in the workspace.
            // - The window is not past the movement threshold for transitioning to floating
            //   while being dragged.
            // - Resizing in a direction that doesn't change the window's tiling size.
            state.pending_sync.queue_container_to_redraw(*window);
        },
    }
    proof {
        lemma_unrelated_keeps(ended, state@);
        if ended.is_valid() {
            lemma_kept_valid(ended, state@, 0);
        }
    }
}

} // verus!
