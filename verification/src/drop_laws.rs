//! Where dragged windows end up.
use vstd::prelude::*;

use crate::config::{WindowBehaviorConfig, WindowState};
use crate::container::{node_position, NodeContentView, NodeView, WindowView};
use crate::geometry::{Point, Rect, TilingDirection};
use crate::handle_window_moved_or_resized_end::{
    child_count, deepest_container, depth, drag_ended, drag_finished, drop_side, drop_target,
    drop_workspace, dropped, insert_plan, inserted, is_drop_candidate, is_split_at,
    nearest_candidate, DragEndAction, DragEndQuery, DropPlan, DropPosition, DropTarget, InsertPlan,
    WindowDrop,
};
use crate::monitor::{lemma_workspace_position, MonitorView};
use crate::wm_error::WmErrorView;
use crate::wm_state::{monitor_at, StateView};

verus! {

/// The number of children among the first nodes is that of those that are listed.
proof fn lemma_child_count(
    nodes: Seq<NodeView>,
    workspace: u128,
    parent: Option<u128>,
    siblings: Seq<int>,
    count: nat,
    k: int,
)
    requires
        count <= nodes.len(),
        0 <= k <= siblings.len(),
        forall|i: int, j: int|
            0 <= i < j < siblings.len() ==> (#[trigger] siblings[i]) < (#[trigger] siblings[j]),
        forall|i: int|
            0 <= i < siblings.len() ==> 0 <= #[trigger] siblings[i] < nodes.len()
                && nodes[siblings[i]].workspace == workspace && nodes[siblings[i]].parent == parent,
        forall|j: int|
            0 <= j < nodes.len() && (#[trigger] nodes[j]).workspace == workspace
                && nodes[j].parent == parent ==> siblings.contains(j),
        forall|i: int| 0 <= i < siblings.len() ==> (#[trigger] siblings[i] < count <==> i < k),
    ensures
        child_count(nodes, workspace, parent, count) == k,
    decreases count,
{
    if count == 0 {
        if k > 0 {
            assert(siblings[0] < count);
        }
    } else {
        let last = count - 1;
        if nodes[last].workspace == workspace && nodes[last].parent == parent {
            assert(siblings.contains(last));
            let i = choose|i: int| 0 <= i < siblings.len() && siblings[i] == last;
            assert(siblings[i] < count);
            assert(i == k - 1) by {
                if i < k - 1 {
                    assert(siblings[i] < siblings[k - 1]);
                    assert(siblings[k - 1] < count);
                }
            }
            assert forall|j: int| 0 <= j < siblings.len() implies (#[trigger] siblings[j]
                < (count - 1) as nat <==> j < k - 1) by {
                if j < i {
                    assert(siblings[j] < siblings[i]);
                } else if j > i {
                    assert(siblings[i] < siblings[j]);
                }
            }
            lemma_child_count(nodes, workspace, parent, siblings, (count - 1) as nat, k - 1);
        } else {
            assert forall|j: int| 0 <= j < siblings.len() implies (#[trigger] siblings[j]
                < (count - 1) as nat <==> j < k) by {
                assert(siblings[j] < count <==> j < k);
                if siblings[j] == last {
                    assert(nodes[siblings[j]].workspace == workspace);
                }
            }
            lemma_child_count(nodes, workspace, parent, siblings, (count - 1) as nat, k);
        }
    }
}

/// A window that is dropped as a sibling becomes the neighbour of the container that it is
/// dropped on, among the children of that container's parent: it comes directly before it if it
/// is dropped above or on the left, and directly after it if it is dropped below or on the right.
/// `siblings` holds the positions of these children, in order, with the container's at `k`.
pub proof fn law_dropped_window_becomes_a_neighbour(
    nodes: Seq<NodeView>,
    at: int,
    direction: TilingDirection,
    position: DropPosition,
    siblings: Seq<int>,
    k: int,
    window: u128,
)
    requires
        0 <= at < nodes.len() <= usize::MAX,
        forall|i: int, j: int|
            0 <= i < j < siblings.len() ==> (#[trigger] siblings[i]) < (#[trigger] siblings[j]),
        forall|i: int|
            0 <= i < siblings.len() ==> 0 <= #[trigger] siblings[i] < nodes.len()
                && nodes[siblings[i]].workspace == nodes[at].workspace && nodes[siblings[i]].parent
                == nodes[at].parent,
        forall|j: int|
            0 <= j < nodes.len() && (#[trigger] nodes[j]).workspace == nodes[at].workspace
                && nodes[j].parent == nodes[at].parent ==> siblings.contains(j),
        0 <= k < siblings.len(),
        siblings[k] == at,
    ensures
        insert_plan(nodes, at, direction, position) matches InsertPlan::Sibling { parent, index }
            ==> {
            let children = Seq::new(siblings.len(), |i: int| nodes[siblings[i]].id);
            let next = children.insert(index as int, window);
            &&& parent == nodes[at].parent
            &&& index <= children.len()
            &&& match position {
                DropPosition::Top | DropPosition::Left => index == k && next[k] == window && next[k
                    + 1] == nodes[at].id,
                DropPosition::Bottom | DropPosition::Right => index == k + 1 && next[k]
                    == nodes[at].id && next[k + 1] == window,
            }
        },
{
    assert forall|i: int| 0 <= i < siblings.len() implies (#[trigger] siblings[i] < at as nat <==> i
        < k) by {
        if i < k {
            assert(siblings[i] < siblings[k]);
        } else if i > k {
            assert(siblings[k] < siblings[i]);
        }
    }
    lemma_child_count(nodes, nodes[at].workspace, nodes[at].parent, siblings, at as nat, k);
    lemma_few_children(nodes, nodes[at].workspace, nodes[at].parent, at as nat);
    let children = Seq::new(siblings.len(), |i: int| nodes[siblings[i]].id);
    assert(children[k] == nodes[at].id);
}

proof fn lemma_few_children(
    nodes: Seq<NodeView>,
    workspace: u128,
    parent: Option<u128>,
    count: nat,
)
    ensures
        child_count(nodes, workspace, parent, count) <= count,
    decreases count,
{
    if count > 0 {
        lemma_few_children(nodes, workspace, parent, (count - 1) as nat);
    }
}

/// A window is dropped into a new split container together with a tiling window if and only if
/// it is dropped across the tiling direction. The new container stands the other way, and its
/// first child is the window that is dropped if that is dropped above or on the left.
pub proof fn law_window_dropped_across_is_split(
    nodes: Seq<NodeView>,
    at: int,
    direction: TilingDirection,
    position: DropPosition,
)
    requires
        0 <= at < nodes.len(),
    ensures
        ({
            let is_tile = nodes[at].content matches NodeContentView::Window(window)
                && window.state == WindowState::Tiling;
            let is_beside = position == DropPosition::Left || position == DropPosition::Right;
            let is_across = is_beside == (direction == TilingDirection::Vertical);
            match insert_plan(nodes, at, direction, position) {
                InsertPlan::Split { wrapped, tiling_direction, index } => {
                    &&& is_tile && is_across
                    &&& wrapped == nodes[at].id
                    &&& tiling_direction != direction
                    &&& index == 0 <==> position == DropPosition::Top || position
                        == DropPosition::Left
                    &&& index <= 1
                },
                InsertPlan::Sibling { .. } => !(is_tile && is_across),
            }
        }),
{
}

/// The side that a window is dropped on is that of the triangle under the cursor, out of the four
/// that the diagonals cut the rectangle into: beside the center rather than above or below it if
/// the cursor is further out, measured by the rectangle's width, than it is measured by its
/// height.
pub proof fn law_drop_side_is_that_of_the_triangle(point: Point, rect: Rect)
    ensures
        ({
            let dx = point.x - rect.spec_center().0;
            let dy = point.y - rect.spec_center().1;
            let width = rect.right - rect.left;
            let height = rect.bottom - rect.top;
            let out_x = if dx >= 0 {
                dx * height
            } else {
                (-dx) * height
            };
            let out_y = if dy >= 0 {
                dy * width
            } else {
                (-dy) * width
            };
            match drop_side(point, rect) {
                DropPosition::Right => out_x > out_y && dx > 0,
                DropPosition::Left => out_x > out_y && dx <= 0,
                DropPosition::Bottom => out_x <= out_y && dy > 0,
                DropPosition::Top => out_x <= out_y && dy <= 0,
            }
        }),
{
}

/// A node's own position is found by its identifier.
proof fn lemma_found_at(nodes: Seq<NodeView>, at: int, from: int)
    requires
        forall|i: int, j: int|
            0 <= i < j < nodes.len() ==> (#[trigger] nodes[i]).id != (#[trigger] nodes[j]).id,
        0 <= from <= at < nodes.len(),
    ensures
        node_position(nodes, nodes[at].id, from) == Some(at),
    decreases at - from,
{
    if from < at {
        assert(nodes[from].id != nodes[at].id);
        lemma_found_at(nodes, at, from + 1);
    }
}

/// Whether `level` gives the number of split containers that each node is in.
pub open spec fn are_levels(nodes: Seq<NodeView>, level: Seq<nat>) -> bool {
    &&& level.len() == nodes.len()
    &&& forall|i: int|
        0 <= i < nodes.len() ==> (#[trigger] level[i]) < nodes.len() && match nodes[i].parent {
            None => level[i] == 0,
            Some(id) => exists|p: int|
                0 <= p < nodes.len() && (#[trigger] nodes[p]).id == id && level[i] == level[p] + 1,
        }
}

proof fn lemma_depth(nodes: Seq<NodeView>, level: Seq<nat>, i: int, limit: nat)
    requires
        forall|i: int, j: int|
            0 <= i < j < nodes.len() ==> (#[trigger] nodes[i]).id != (#[trigger] nodes[j]).id,
        are_levels(nodes, level),
        0 <= i < nodes.len(),
        limit >= level[i] + 1,
    ensures
        depth(nodes, Some(nodes[i].id), limit) == level[i] + 1,
        limit >= 1 ==> depth(nodes, nodes[i].parent, (limit - 1) as nat) == level[i],
    decreases level[i],
{
    lemma_found_at(nodes, i, 0);
    assert(level[i] < nodes.len());
    match nodes[i].parent {
        None => {
            assert(depth(nodes, None, (limit - 1) as nat) == 0);
        },
        Some(id) => {
            let p = choose|p: int|
                0 <= p < nodes.len() && (#[trigger] nodes[p]).id == id && level[i] == level[p] + 1;
            lemma_depth(nodes, level, p, (limit - 1) as nat);
        },
    }
}

/// Depth of the container that a node is a direct child of.
proof fn lemma_parent_depth(nodes: Seq<NodeView>, level: Seq<nat>, i: int)
    requires
        forall|i: int, j: int|
            0 <= i < j < nodes.len() ==> (#[trigger] nodes[i]).id != (#[trigger] nodes[j]).id,
        are_levels(nodes, level),
        0 <= i < nodes.len(),
    ensures
        depth(nodes, nodes[i].parent, nodes.len()) == level[i],
{
    assert(level[i] < nodes.len());
    lemma_depth(nodes, level, i, nodes.len() + 1);
}

proof fn lemma_deepest(
    nodes: Seq<NodeView>,
    workspace: u128,
    point: Point,
    excluded: u128,
    found: Option<u128>,
    from: int,
)
    requires
        0 <= from,
    ensures
        ({
            let deepest = deepest_container(nodes, workspace, point, excluded, found, from);
            &&& depth(nodes, deepest, nodes.len()) >= depth(nodes, found, nodes.len())
            &&& forall|s: int|
                from <= s < nodes.len() && is_split_at(#[trigger] nodes[s], workspace, point)
                    && nodes[s].id != excluded ==> depth(nodes, Some(nodes[s].id), nodes.len())
                    <= depth(nodes, deepest, nodes.len())
            &&& deepest == found || exists|s: int|
                from <= s < nodes.len() && deepest == Some((#[trigger] nodes[s]).id)
                    && is_split_at(nodes[s], workspace, point) && nodes[s].id != excluded
        }),
    decreases nodes.len() - from,
{
    if from < nodes.len() {
        let node = nodes[from];
        let is_deeper = is_split_at(node, workspace, point) && node.id != excluded && depth(
            nodes,
            Some(node.id),
            nodes.len(),
        ) > depth(nodes, found, nodes.len());
        let now = if is_deeper {
            Some(node.id)
        } else {
            found
        };
        lemma_deepest(nodes, workspace, point, excluded, now, from + 1);
        let deepest = deepest_container(nodes, workspace, point, excluded, found, from);
        assert forall|s: int|
            from <= s < nodes.len() && is_split_at(#[trigger] nodes[s], workspace, point)
                && nodes[s].id != excluded implies depth(nodes, Some(nodes[s].id), nodes.len())
            <= depth(nodes, deepest, nodes.len()) by {}
        if deepest != found && deepest == now {
            assert(deepest == Some(nodes[from].id));
        }
    }
}

proof fn lemma_nearest(
    nodes: Seq<NodeView>,
    workspace: u128,
    parent: Option<u128>,
    point: Point,
    excluded: u128,
    found: Option<int>,
    from: int,
)
    requires
        0 <= from,
        found matches Some(at) ==> 0 <= at < from && at < nodes.len() && is_drop_candidate(
            nodes[at],
            workspace,
            parent,
            excluded,
        ),
    ensures
        ({
            let nearest = nearest_candidate(
                nodes,
                workspace,
                parent,
                point,
                excluded,
                found,
                from,
            );
            &&& nearest is None ==> found is None && forall|j: int|
                from <= j < nodes.len() ==> !is_drop_candidate(
                    #[trigger] nodes[j],
                    workspace,
                    parent,
                    excluded,
                )
            &&& nearest matches Some(at) ==> {
                &&& 0 <= at < nodes.len()
                &&& is_drop_candidate(nodes[at], workspace, parent, excluded)
                &&& found matches Some(best) ==> at == best || nodes[at].area.spec_distance(point)
                    <= nodes[best].area.spec_distance(point)
                &&& at >= from || found == Some(at)
                &&& forall|j: int|
                    from <= j < nodes.len() && is_drop_candidate(
                        #[trigger] nodes[j],
                        workspace,
                        parent,
                        excluded,
                    ) ==> nodes[at].area.spec_distance(point) <= nodes[j].area.spec_distance(point)
                        && (j > at ==> nodes[at].area.spec_distance(point)
                        < nodes[j].area.spec_distance(point))
            }
        }),
    decreases nodes.len() - from,
{
    if from < nodes.len() {
        let is_candidate = is_drop_candidate(nodes[from], workspace, parent, excluded);
        let is_nearer = match found {
            Some(best) => !(nodes[best].area.spec_distance(point)
                < nodes[from].area.spec_distance(point)),
            None => true,
        };
        lemma_nearest(
            nodes,
            workspace,
            parent,
            point,
            excluded,
            if is_candidate && is_nearer {
                Some(from)
            } else {
                found
            },
            from + 1,
        );
    }
}

/// A window is dropped next to the tiling container that is nearest to the cursor, the last of
/// equally near ones, out of the children of the most deeply nested split container under the
/// cursor, or of the workspace if there is none. The window itself doesn't count.
pub proof fn law_drop_target_is_the_nearest_in_the_deepest(
    nodes: Seq<NodeView>,
    workspace: u128,
    point: Point,
    window: u128,
    target: DropTarget,
    level: Seq<nat>,
) -> (at: int)
    requires
        forall|i: int, j: int|
            0 <= i < j < nodes.len() ==> (#[trigger] nodes[i]).id != (#[trigger] nodes[j]).id,
        are_levels(nodes, level),
        drop_target(nodes, workspace, point, window) == Some(target),
    ensures
        0 <= at < nodes.len(),
        nodes[at].id == target.container,
        target.container != window,
        nodes[at].workspace == workspace,
        nodes[at].content matches NodeContentView::Window(tile) ==> tile.state
            == WindowState::Tiling,
        target.position == drop_side(point, nodes[at].area),
        nodes[at].parent is Some ==> exists|s: int|
            0 <= s < nodes.len() && Some((#[trigger] nodes[s]).id) == nodes[at].parent
                && nodes[s].workspace == workspace && nodes[s].area.spec_contains(point),
        forall|s: int|
            0 <= s < nodes.len() && (#[trigger] nodes[s]).workspace == workspace
                && nodes[s].content is Split && nodes[s].id != window
                && nodes[s].area.spec_contains(point) ==> level[s] < level[at],
        forall|j: int|
            0 <= j < nodes.len() && (#[trigger] nodes[j]).workspace == workspace && nodes[j].parent
                == nodes[at].parent && nodes[j].id != window && (
            nodes[j].content matches NodeContentView::Window(tile) ==> tile.state
                == WindowState::Tiling) ==> nodes[at].area.spec_distance(point)
                <= nodes[j].area.spec_distance(point) && (j > at
                ==> nodes[at].area.spec_distance(point) < nodes[j].area.spec_distance(point)),
{
    let parent = deepest_container(nodes, workspace, point, window, None, 0);
    lemma_deepest(nodes, workspace, point, window, None, 0);
    lemma_nearest(nodes, workspace, parent, point, window, None, 0);
    let at = nearest_candidate(nodes, workspace, parent, point, window, None, 0)->0;
    lemma_parent_depth(nodes, level, at);
    assert forall|s: int|
        0 <= s < nodes.len() && (#[trigger] nodes[s]).workspace == workspace
            && nodes[s].content is Split && nodes[s].id != window
            && nodes[s].area.spec_contains(point) implies level[s] < level[at] by {
        assert(is_split_at(nodes[s], workspace, point));
        assert(level[s] < nodes.len());
        lemma_depth(nodes, level, s, nodes.len());
    }
    assert forall|j: int|
        0 <= j < nodes.len() && (#[trigger] nodes[j]).workspace == workspace && nodes[j].parent
            == nodes[at].parent && nodes[j].id != window && (
        nodes[j].content matches NodeContentView::Window(tile) ==> tile.state
            == WindowState::Tiling) implies nodes[at].area.spec_distance(point)
        <= nodes[j].area.spec_distance(point) && (j > at ==> nodes[at].area.spec_distance(point)
        < nodes[j].area.spec_distance(point)) by {
        assert(is_drop_candidate(nodes[j], workspace, parent, window));
    }
    at
}

/// There is nothing to drop a window next to only if the workspace, or a split container under
/// the cursor, has no other tiling children.
pub proof fn law_window_is_dropped_next_to_something(
    nodes: Seq<NodeView>,
    workspace: u128,
    point: Point,
    window: u128,
) -> (parent: Option<u128>)
    requires
        drop_target(nodes, workspace, point, window) is None,
    ensures
        parent is None || exists|s: int|
            0 <= s < nodes.len() && Some((#[trigger] nodes[s]).id) == parent && nodes[s].workspace
                == workspace && nodes[s].content is Split && nodes[s].area.spec_contains(point),
        forall|j: int|
            0 <= j < nodes.len() && nodes[j].workspace == workspace && (#[trigger] nodes[j]).parent
                == parent && nodes[j].id != window ==> (
            nodes[j].content matches NodeContentView::Window(tile) && tile.state
                != WindowState::Tiling),
{
    let parent = deepest_container(nodes, workspace, point, window, None, 0);
    lemma_deepest(nodes, workspace, point, window, None, 0);
    lemma_nearest(nodes, workspace, parent, point, window, None, 0);
    assert forall|j: int|
        0 <= j < nodes.len() && nodes[j].workspace == workspace && (#[trigger] nodes[j]).parent
            == parent && nodes[j].id != window implies (
    nodes[j].content matches NodeContentView::Window(tile) && tile.state
        != WindowState::Tiling) by {
        assert(!is_drop_candidate(nodes[j], workspace, parent, window));
    }
    parent
}

/// Where the monitor at a point is found.
pub proof fn lemma_monitor_at(monitors: Seq<MonitorView>, point: Point, from: int)
    requires
        0 <= from,
    ensures
        match monitor_at(monitors, point, from) {
            Some(m) => {
                &&& from <= m < monitors.len()
                &&& monitors[m].bounds.left <= point.x <= monitors[m].bounds.right
                &&& monitors[m].bounds.top <= point.y <= monitors[m].bounds.bottom
                &&& forall|n: int|
                    from <= n < m ==> !((#[trigger] monitors[n]).bounds.left <= point.x
                        <= monitors[n].bounds.right && monitors[n].bounds.top <= point.y
                        <= monitors[n].bounds.bottom)
            },
            None => forall|n: int|
                from <= n < monitors.len() ==> !((#[trigger] monitors[n]).bounds.left <= point.x
                    <= monitors[n].bounds.right && monitors[n].bounds.top <= point.y
                    <= monitors[n].bounds.bottom),
        },
    decreases monitors.len() - from,
{
    if from < monitors.len() {
        lemma_monitor_at(monitors, point, from + 1);
    }
}

/// The monitor at a point is the first one whose bounds the point is within.
pub proof fn law_monitor_at_point_holds_it(monitors: Seq<MonitorView>, point: Point, m: int)
    requires
        0 <= m < monitors.len(),
        monitors[m].bounds.left <= point.x <= monitors[m].bounds.right,
        monitors[m].bounds.top <= point.y <= monitors[m].bounds.bottom,
    ensures
        monitor_at(monitors, point, 0) matches Some(first) && first <= m
            && monitors[first].bounds.left <= point.x <= monitors[first].bounds.right
            && monitors[first].bounds.top <= point.y <= monitors[first].bounds.bottom,
{
    lemma_monitor_at(monitors, point, 0);
}

/// A window is dropped on the workspace that the monitor under the cursor displays, or else on
/// the one that it is in.
pub proof fn law_window_is_dropped_under_the_cursor(
    state: StateView,
    window: u128,
    point: Point,
    at: int,
)
    requires
        0 <= at < state.nodes.len(),
        state.nodes[at].id == window,
        forall|i: int, j: int|
            0 <= i < j < state.nodes.len() ==> (#[trigger] state.nodes[i]).id != (
            #[trigger] state.nodes[j]).id,
    ensures
        forall|m: int|
            0 <= m < state.monitors.len() && (#[trigger] state.monitors[m]).bounds.left <= point.x
                <= state.monitors[m].bounds.right && state.monitors[m].bounds.top <= point.y
                <= state.monitors[m].bounds.bottom && (forall|n: int|
                0 <= n < m ==> !((#[trigger] state.monitors[n]).bounds.left <= point.x
                    <= state.monitors[n].bounds.right && state.monitors[n].bounds.top <= point.y
                    <= state.monitors[n].bounds.bottom)) && state.monitors[m].focus_order.len() > 0
                && (exists|a: int|
                0 <= a < state.monitors[m].workspaces.len() && (
                #[trigger] state.monitors[m].workspaces[a]).id == state.monitors[m].focus_order[0])
                ==> drop_workspace(state, window, point) == Some(state.monitors[m].focus_order[0]),
        (forall|m: int|
            0 <= m < state.monitors.len() ==> !((#[trigger] state.monitors[m]).bounds.left
                <= point.x <= state.monitors[m].bounds.right && state.monitors[m].bounds.top
                <= point.y <= state.monitors[m].bounds.bottom)) ==> drop_workspace(
            state,
            window,
            point,
        ) == Some(state.nodes[at].workspace),
        (forall|m: int|
            0 <= m < state.monitors.len() ==> (#[trigger] state.monitors[m]).focus_order.len()
                == 0) ==> drop_workspace(state, window, point) == Some(
            state.nodes[at].workspace,
        ),
{
    lemma_monitor_at(state.monitors, point, 0);
    lemma_found_at(state.nodes, at, 0);
    if let Some(m) = monitor_at(state.monitors, point, 0) {
        if state.monitors[m].focus_order.len() > 0 {
            lemma_workspace_position(
                state.monitors[m].workspaces,
                state.monitors[m].focus_order[0],
                0,
            );
        }
    }
}

/// A window that there is nothing to drop next to is added to the workspace, and doesn't go back
/// to where it was inserted last. Otherwise nothing changes until it is tiled again.
pub proof fn law_window_dropped_on_an_empty_workspace_is_added(
    state: StateView,
    window: u128,
    point: Point,
    workspace: u128,
    at: int,
)
    requires
        0 <= at < state.nodes.len(),
        state.nodes[at].id == window,
        forall|i: int, j: int|
            0 <= i < j < state.nodes.len() ==> (#[trigger] state.nodes[i]).id != (
            #[trigger] state.nodes[j]).id,
        drop_workspace(state, window, point) == Some(workspace),
    ensures
        ({
            let (next, result) = dropped(state, window, point);
            let target = drop_target(state.nodes, workspace, point, window);
            &&& next == (StateView { nodes: next.nodes, ..state })
            &&& target is None ==> {
                &&& result == Ok::<DropPlan, WmErrorView>(DropPlan::AddToWorkspace { workspace })
                &&& next.nodes.len() == state.nodes.len()
                &&& forall|i: int|
                    0 <= i < state.nodes.len() && i != at ==> #[trigger] next.nodes[i]
                        == state.nodes[i]
                &&& match state.nodes[at].content {
                    NodeContentView::Window(old_window) => next.nodes[at] == (NodeView {
                        content: NodeContentView::Window(
                            WindowView { insertion_target: None, ..old_window },
                        ),
                        ..state.nodes[at]
                    }),
                    NodeContentView::Split { .. } => next.nodes[at] == state.nodes[at],
                }
            }
            &&& target is Some ==> next == state && result == Ok::<DropPlan, WmErrorView>(
                DropPlan::Retile(WindowDrop { window, workspace, target: target->0 }),
            )
        }),
{
    lemma_found_at(state.nodes, at, 0);
}

/// A dropped window is inserted next to the container found before, by the tiling direction of
/// that container's parent, which is redrawn.
pub proof fn law_dropped_window_is_inserted_where_it_was_dropped(
    state: StateView,
    drop: WindowDrop,
    point: Point,
    at: int,
    direction: TilingDirection,
)
    requires
        0 <= at < state.nodes.len(),
        state.nodes[at].id == drop.target.container,
        forall|i: int, j: int|
            0 <= i < j < state.nodes.len() ==> (#[trigger] state.nodes[i]).id != (
            #[trigger] state.nodes[j]).id,
        match state.nodes[at].parent {
            Some(id) => exists|p: int|
                0 <= p < state.nodes.len() && (#[trigger] state.nodes[p]).id == id
                    && state.nodes[p].content == (NodeContentView::Split {
                    tiling_direction: direction,
                }),
            None => exists|m: int, a: int|
                0 <= m < state.monitors.len() && 0 <= a < state.monitors[m].workspaces.len()
                    && state.locate(state.nodes[at].workspace) == Some((m, a)) && (
                #[trigger] state.monitors[m].workspaces[a]).tiling_direction == direction,
        },
    ensures
        ({
            let (next, result) = inserted(state, drop, point);
            &&& result == Ok::<Option<InsertPlan>, WmErrorView>(
                Some(insert_plan(state.nodes, at, direction, drop.target.position)),
            )
            &&& next == (StateView { pending_sync: next.pending_sync, ..state })
            &&& next.pending_sync.containers_to_redraw.contains(
                match state.nodes[at].parent {
                    Some(id) => id,
                    None => state.nodes[at].workspace,
                },
            )
        }),
{
    lemma_found_at(state.nodes, at, 0);
    if let Some(id) = state.nodes[at].parent {
        let p = choose|p: int|
            0 <= p < state.nodes.len() && (#[trigger] state.nodes[p]).id == id
                && state.nodes[p].content == (NodeContentView::Split {
                tiling_direction: direction,
            });
        lemma_found_at(state.nodes, p, 0);
    }
}

/// What is done when the drag of a window ends. Nothing, unless the window is being dragged. A
/// tiling window is resized to its frame. Any other one becomes fullscreen if it is maximized or
/// covers the workspace, keeps floating if it was floating before the drag, and is tiled again
/// otherwise.
pub proof fn law_drag_ends_by_how_it_began(
    state: StateView,
    behavior: WindowBehaviorConfig,
    at: int,
    query: DragEndQuery,
)
    requires
        0 <= at < state.nodes.len(),
        forall|i: int, j: int|
            0 <= i < j < state.nodes.len() ==> (#[trigger] state.nodes[i]).id != (
            #[trigger] state.nodes[j]).id,
        query.nearest_monitor matches Some(monitor) ==> monitor < state.monitors.len(),
    ensures
        ({
            let id = state.nodes[at].id;
            let (next, result) = drag_ended(state, behavior, id, query);
            match state.nodes[at].content {
                NodeContentView::Split { .. } => next == state && result == Ok::<
                    DragEndAction,
                    WmErrorView,
                >(DragEndAction::Ignore),
                NodeContentView::Window(window) => if window.active_drag is None {
                    next == state && result == Ok::<DragEndAction, WmErrorView>(
                        DragEndAction::Ignore,
                    )
                } else if window.state == WindowState::Tiling {
                    &&& next == state
                    &&& result matches Ok(DragEndAction::Resize { window: resized, width, height })
                        && resized == id && width == window.frame.right - window.frame.left
                        && height == window.frame.bottom - window.frame.top
                } else if query.is_maximized is None {
                    next == state && result == Ok::<DragEndAction, WmErrorView>(
                        DragEndAction::Ignore,
                    )
                } else {
                    let is_maximized = query.is_maximized->0;
                    let is_fullscreen = is_maximized || query.should_fullscreen;
                    &&& next == (StateView {
                        nodes: state.nodes.update(
                            at,
                            NodeView {
                                content: NodeContentView::Window(
                                    WindowView { is_maximized, ..window },
                                ),
                                ..state.nodes[at]
                            },
                        ),
                        ..state
                    })
                    &&& match result {
                        Ok(DragEndAction::SetFullscreen { window: set, state: fullscreen }) => {
                            &&& is_fullscreen && set == id
                            &&& fullscreen.maximized == is_maximized
                            &&& fullscreen.shown_on_top == match window.state {
                                WindowState::Fullscreen(current) => current.shown_on_top,
                                _ => behavior.state_defaults.fullscreen.shown_on_top,
                            }
                        },
                        Ok(DragEndAction::MoveFloating { window: moved, frame, monitor }) => {
                            &&& !is_fullscreen && moved == id
                            &&& window.active_drag->0.is_from_floating
                            &&& frame == window.frame
                            &&& query.nearest_monitor == Some(monitor)
                        },
                        Ok(DragEndAction::DropAsTiling { window: tiled }) => !is_fullscreen && tiled
                            == id && !window.active_drag->0.is_from_floating,
                        Ok(_) => false,
                        Err(WmErrorView::NoNearestMonitor) => query.nearest_monitor is None,
                        Err(WmErrorView::NoDisplayedWorkspace) => query.nearest_monitor is Some
                            && state.monitors[query.nearest_monitor->0 as int].displayed() is None,
                        Err(_) => false,
                    }
                    &&& result is Ok <==> (query.nearest_monitor matches Some(monitor)
                        && state.monitors[monitor as int].displayed() is Some)
                },
            }
        }),
{
    lemma_found_at(state.nodes, at, 0);
}

/// Once what a drag's end asked for is done, the window isn't dragged any more, and no other node
/// is changed. A maximized window isn't redrawn, while one that snaps to the screen or to its
/// tile is.
pub proof fn law_finished_drag_is_over(state: StateView, action: DragEndAction, at: int)
    requires
        0 <= at < state.nodes.len(),
        state.nodes[at].content is Window,
        forall|i: int, j: int|
            0 <= i < j < state.nodes.len() ==> (#[trigger] state.nodes[i]).id != (
            #[trigger] state.nodes[j]).id,
        match action {
            DragEndAction::Ignore => false,
            DragEndAction::SetFullscreen { window, .. } => window == state.nodes[at].id,
            DragEndAction::MoveFloating { window, .. } => window == state.nodes[at].id,
            DragEndAction::DropAsTiling { window } => window == state.nodes[at].id,
            DragEndAction::Resize { window, .. } => window == state.nodes[at].id,
        },
    ensures
        ({
            let id = state.nodes[at].id;
            let next = drag_finished(state, action);
            let redrawn = next.pending_sync.containers_to_redraw;
            &&& next.nodes == state.nodes.update(
                at,
                NodeView {
                    content: NodeContentView::Window(
                        WindowView { active_drag: None, ..state.nodes[at].content->Window_0 },
                    ),
                    ..state.nodes[at]
                },
            )
            &&& next == (StateView {
                nodes: next.nodes,
                pending_sync: next.pending_sync,
                ..state
            })
            &&& match action {
                DragEndAction::SetFullscreen { state: fullscreen, .. } => redrawn.contains(id)
                    <==> !fullscreen.maximized,
                DragEndAction::Resize { .. } => redrawn.contains(id),
                _ => redrawn == state.pending_sync.containers_to_redraw,
            }
            &&& forall|other: u128|
                other != id ==> (#[trigger] redrawn.contains(other) <==>
                state.pending_sync.containers_to_redraw.contains(other))
        }),
        drag_finished(state, DragEndAction::Ignore) == state,
{
    lemma_found_at(state.nodes, at, 0);
}

/// If the container that a window was dropped on is gone once the window is tiled again, the
/// nearest one is found anew. If there is none, the window stays where it is.
pub proof fn law_lost_drop_target_is_found_anew(
    state: StateView,
    drop: WindowDrop,
    point: Point,
)
    requires
        forall|i: int|
            0 <= i < state.nodes.len() ==> (#[trigger] state.nodes[i]).id != drop.target.container,
    ensures
        match drop_target(state.nodes, drop.workspace, point, drop.window) {
            None => inserted(state, drop, point) == (
                state,
                Ok::<Option<InsertPlan>, WmErrorView>(None),
            ),
            Some(target) => inserted(state, drop, point) == inserted(
                state,
                WindowDrop { target, ..drop },
                point,
            ),
        },
{
    crate::state_laws::law_first_node_with_an_identifier_is_found(
        state.nodes,
        drop.target.container,
        0,
    );
    if let Some(target) = drop_target(state.nodes, drop.workspace, point, drop.window) {
        crate::handle_window_moved_or_resized_end::lemma_drop_target(
            state.nodes,
            drop.workspace,
            point,
            drop.window,
        );
    }
}

/// A window can't be inserted next to a container whose parent is gone.
pub proof fn law_window_needs_a_parent_to_be_inserted_into(
    state: StateView,
    drop: WindowDrop,
    point: Point,
    at: int,
    parent: u128,
)
    requires
        0 <= at < state.nodes.len(),
        state.nodes[at].id == drop.target.container,
        state.nodes[at].parent == Some(parent),
        forall|i: int, j: int|
            0 <= i < j < state.nodes.len() ==> (#[trigger] state.nodes[i]).id != (
            #[trigger] state.nodes[j]).id,
        forall|i: int| 0 <= i < state.nodes.len() ==> (#[trigger] state.nodes[i]).id != parent,
    ensures
        inserted(state, drop, point) == (
            state,
            Err::<Option<InsertPlan>, WmErrorView>(WmErrorView::NoDropParent),
        ),
{
    lemma_found_at(state.nodes, at, 0);
    crate::state_laws::law_first_node_with_an_identifier_is_found(state.nodes, parent, 0);
}

} // verus!
