//! What moving a workspace to another monitor does to its layout.
use vstd::prelude::*;

use crate::activate_workspace::new_tiling_direction;
use crate::container::NodeContentView;
use crate::geometry::{Point, Rect, TilingDirection};
use crate::invariants::windows_fit;
use crate::monitor::MonitorView;
use crate::orientation::Orientation;
use crate::page_placement::PagePlacement;
use crate::repage_spanning_desktops::{
    is_misoriented, moved_to_monitor, placement_applied, recentered_node, transposed_node, turned,
};
use crate::wm_state::{lemma_located, StateView};
use crate::workspace::WorkspaceView;
use crate::workspace_config::WorkspaceConfigView;
use crate::workspace_map::{found, front};

verus! {

/// Transposing a workspace turns every split container of it, however deeply nested, and the
/// workspace itself, and changes nothing else.
pub proof fn law_transposing_turns_every_split(state: StateView, place: (int, int))
    requires
        0 <= place.0 < state.monitors.len(),
        0 <= place.1 < state.monitors[place.0].workspaces.len(),
    ensures
        ({
            let next = state.transpose(place);
            let before = state.monitors[place.0].workspaces[place.1];
            let after = next.monitors[place.0].workspaces[place.1];
            &&& next == (StateView { monitors: next.monitors, nodes: next.nodes, ..state })
            &&& after.tiling_direction != before.tiling_direction
            &&& after == (WorkspaceView { tiling_direction: after.tiling_direction, ..before })
            &&& next.monitors.len() == state.monitors.len()
            &&& forall|m: int|
                0 <= m < state.monitors.len() ==> {
                    &&& (#[trigger] next.monitors[m]) == (MonitorView {
                        workspaces: next.monitors[m].workspaces,
                        ..state.monitors[m]
                    })
                    &&& next.monitors[m].workspaces.len() == state.monitors[m].workspaces.len()
                }
            &&& forall|m: int, a: int|
                0 <= m < state.monitors.len() && 0 <= a < state.monitors[m].workspaces.len() && (m,
                a) != place ==> #[trigger] next.monitors[m].workspaces[a]
                    == state.monitors[m].workspaces[a]
            &&& next.nodes.len() == state.nodes.len()
            &&& forall|i: int|
                0 <= i < state.nodes.len() ==> {
                    let (old_node, node) = (state.nodes[i], #[trigger] next.nodes[i]);
                    &&& node.id == old_node.id
                    &&& node.workspace == old_node.workspace
                    &&& node.parent == old_node.parent
                    &&& node.area == old_node.area
                    &&& match (old_node.content, node.content) {
                        (
                            NodeContentView::Split { tiling_direction: from },
                            NodeContentView::Split { tiling_direction: to },
                        ) => (from != to) == (old_node.workspace == before.id),
                        (NodeContentView::Window(from), NodeContentView::Window(to)) => from == to,
                        _ => false,
                    }
                }
        }),
{
    let next = state.transpose(place);
    assert forall|m: int, a: int|
        0 <= m < state.monitors.len() && 0 <= a < state.monitors[m].workspaces.len() && (m, a)
            != place implies #[trigger] next.monitors[m].workspaces[a]
        == state.monitors[m].workspaces[a] by {}
}

/// A layout has to be turned if it stands the other way than the monitor does, given how it was
/// made and whether it is turned already.
pub proof fn law_layout_is_turned_to_stand_like_its_monitor(
    workspace: WorkspaceView,
    monitor: MonitorView,
)
    ensures
        ({
            let is_tall = monitor.bounds.bottom - monitor.bounds.top > monitor.bounds.right
                - monitor.bounds.left;
            let stands_tall = (workspace.layout_orientation == Orientation::Portrait)
                != workspace.is_transposed;
            is_misoriented(workspace, monitor) <==> stands_tall != is_tall
        }),
{
}

/// A layout made by a workspace's first tiling direction is as tall or wide as the direction
/// stacks or lines up, and untouched.
pub proof fn law_new_layout_stands_like_its_direction(
    id: u128,
    config: WorkspaceConfigView,
    direction: TilingDirection,
)
    ensures
        ({
            let created = WorkspaceView::created(id, config, direction);
            &&& created.id == id
            &&& created.config == config
            &&& created.tiling_direction == direction
            &&& created.layout_orientation == Orientation::Portrait <==> direction
                == TilingDirection::Vertical
            &&& !created.is_transposed
            &&& created.home is None
            &&& created.monitor is None
        }),
{
}

/// A new workspace stacks windows on a monitor that is taller than wide, and lines them up on
/// any other.
pub proof fn law_new_workspace_stands_like_its_monitor(
    monitor: MonitorView,
    id: u128,
    config: WorkspaceConfigView,
)
    ensures
        new_tiling_direction(monitor) == TilingDirection::Vertical <==> monitor.bounds.bottom
            - monitor.bounds.top > monitor.bounds.right - monitor.bounds.left,
        !is_misoriented(
            WorkspaceView::created(id, config, new_tiling_direction(monitor)),
            monitor,
        ),
{
}

/// A centered rectangle keeps its size, and is as far from one side of the area as from the
/// opposite one, up to two pixels.
pub proof fn law_centered_rect_is_in_the_middle(rect: Rect, area: Rect)
    requires
        rect.can_center(area),
    ensures
        ({
            let next = rect.centered(area);
            &&& next.right - next.left == rect.right - rect.left
            &&& next.bottom - next.top == rect.bottom - rect.top
            &&& -2 <= (next.left - area.left) - (area.right - next.right) <= 2
            &&& -2 <= (next.top - area.top) - (area.bottom - next.bottom) <= 2
        }),
{
}

/// The center of a rectangle is as far from one side as from the opposite one, up to a pixel,
/// and never nearer to the right or bottom of one that isn't inverted.
pub proof fn law_center_is_in_the_middle(rect: Rect)
    ensures
        ({
            let (x, y) = rect.spec_center();
            &&& -1 <= (x - rect.left) - (rect.right - x) <= 1
            &&& -1 <= (y - rect.top) - (rect.bottom - y) <= 1
            &&& rect.left <= rect.right ==> x - rect.left <= rect.right - x
            &&& rect.top <= rect.bottom ==> y - rect.top <= rect.bottom - y
        }),
{
}

/// A rectangle contains the points that aren't beyond any of its sides.
pub proof fn law_rect_contains_points_within_its_sides(rect: Rect, point: Point)
    ensures
        rect.spec_contains(point) <==> !(point.x < rect.left || point.x > rect.right || point.y
            < rect.top || point.y > rect.bottom),
{
}

/// No point of a rectangle is nearer to another point than its distance says, and one is as
/// near.
pub proof fn law_distance_is_to_the_nearest_point(rect: Rect, point: Point, inside: Point)
    requires
        rect.left <= rect.right,
        rect.top <= rect.bottom,
        rect.left <= inside.x <= rect.right,
        rect.top <= inside.y <= rect.bottom,
    ensures
        rect.spec_distance(point) <= (point.x - inside.x) * (point.x - inside.x) + (point.y
            - inside.y) * (point.y - inside.y),
        exists|near: Point|
            rect.left <= near.x <= rect.right && rect.top <= near.y <= rect.bottom
                && rect.spec_distance(point) == #[trigger] ((point.x - near.x) * (point.x - near.x))
                + (point.y - near.y) * (point.y - near.y),
{
    let near = Point {
        x: if point.x < rect.left {
            rect.left
        } else if point.x > rect.right {
            rect.right
        } else {
            point.x
        },
        y: if point.y < rect.top {
            rect.top
        } else if point.y > rect.bottom {
            rect.bottom
        } else {
            point.y
        },
    };
    let dx = crate::geometry::overshoot(rect.left as int, rect.right as int, point.x as int);
    let dy = crate::geometry::overshoot(rect.top as int, rect.bottom as int, point.y as int);
    let (nx, ny) = (point.x - near.x, point.y - near.y);
    let (ix, iy) = (point.x - inside.x, point.y - inside.y);
    assert(nx == dx || nx == -dx);
    assert(ny == dy || ny == -dy);
    assert(nx * nx == dx * dx) by (nonlinear_arith)
        requires
            nx == dx || nx == -dx,
    ;
    assert(ny * ny == dy * dy) by (nonlinear_arith)
        requires
            ny == dy || ny == -dy,
    ;
    assert(dx * dx <= ix * ix) by (nonlinear_arith)
        requires
            0 <= dx,
            dx <= ix || dx <= -ix,
    ;
    assert(dy * dy <= iy * iy) by (nonlinear_arith)
        requires
            0 <= dy,
            dy <= iy || dy <= -iy,
    ;
    assert((point.x - near.x) * (point.x - near.x) == dx * dx);
    assert((point.y - near.y) * (point.y - near.y) == dy * dy);
}

/// Applying a placement turns every split container of the instance if the instance's layout
/// doesn't stand like the monitor that it is put on, and none otherwise. If the instance is moved
/// from another monitor, each of its windows is put in the middle of the new one, at its size.
/// Nothing else about windows and containers changes.
pub proof fn law_placed_layout_fits_its_monitor(
    state: StateView,
    placement: PagePlacement,
    group: WorkspaceConfigView,
    place: (int, int),
)
    requires
        windows_fit(state, placement.workspace),
        placement.monitor < state.monitors.len(),
        state.locate(placement.workspace) == Some(place),
    ensures
        ({
            let next = placement_applied(state, placement, group).0;
            let workspace = state.monitors[place.0].workspaces[place.1];
            let monitor = state.monitors[placement.monitor as int];
            let is_tall = monitor.bounds.bottom - monitor.bounds.top > monitor.bounds.right
                - monitor.bounds.left;
            let is_turned = ((workspace.layout_orientation == Orientation::Portrait)
                != workspace.is_transposed) != is_tall;
            let is_moved = state.monitors[place.0].id != monitor.id;
            &&& next.nodes.len() == state.nodes.len()
            &&& forall|i: int|
                0 <= i < state.nodes.len() ==> {
                    let (old_node, node) = (state.nodes[i], #[trigger] next.nodes[i]);
                    let is_own = old_node.workspace == placement.workspace;
                    &&& node.id == old_node.id
                    &&& node.workspace == old_node.workspace
                    &&& node.parent == old_node.parent
                    &&& node.area == old_node.area
                    &&& match (old_node.content, node.content) {
                        (
                            NodeContentView::Split { tiling_direction: from },
                            NodeContentView::Split { tiling_direction: to },
                        ) => (from != to) == (is_own && is_turned),
                        (NodeContentView::Window(from), NodeContentView::Window(to)) => if is_own
                            && is_moved {
                            let (a, b) = (from.floating_placement, to.floating_placement);
                            let area = monitor.workspace_area;
                            &&& to == (crate::container::WindowView {
                                floating_placement: b,
                                has_pending_dpi_adjustment: true,
                                ..from
                            })
                            &&& b.right - b.left == a.right - a.left
                            &&& b.bottom - b.top == a.bottom - a.top
                            &&& -2 <= (b.left - area.left) - (area.right - b.right) <= 2
                            &&& -2 <= (b.top - area.top) - (area.bottom - b.bottom) <= 2
                        } else {
                            from == to
                        },
                        _ => false,
                    }
                }
        }),
{
    reveal(windows_fit);
    lemma_located(state.monitors, placement.workspace, 0);
    let next = placement_applied(state, placement, group).0;
    let monitor = placement.monitor as int;
    let area = state.monitors[monitor].workspace_area;
    let workspace = state.monitors[place.0].workspaces[place.1];
    let is_moved = state.monitors[place.0].id != state.monitors[monitor].id;
    let there = if is_moved {
        moved_to_monitor(state, place, monitor)
    } else {
        state
    };
    let spot = if is_moved {
        (monitor, there.monitors[monitor].workspaces.len() - 1)
    } else {
        place
    };
    assert(there.monitors[spot.0].workspaces[spot.1].id == placement.workspace);
    let fitted = if is_misoriented(workspace, state.monitors[monitor]) {
        turned(there, spot)
    } else {
        there
    };
    assert(next.nodes == fitted.nodes);
    assert forall|i: int| 0 <= i < state.nodes.len() implies there.nodes[i] == if is_moved {
        recentered_node(state.nodes[i], placement.workspace, area)
    } else {
        #[trigger] state.nodes[i]
    } by {}
    assert forall|i: int| 0 <= i < state.nodes.len() implies next.nodes[i] == if is_misoriented(
        workspace,
        state.monitors[monitor],
    ) {
        transposed_node(there.nodes[i], placement.workspace)
    } else {
        #[trigger] there.nodes[i]
    } by {}
    assert forall|i: int|
        0 <= i < state.nodes.len() && state.nodes[i].workspace == placement.workspace
            && state.nodes[i].window() is Some implies (
    #[trigger] state.nodes[i]).window()->0.floating_placement.can_center(area) by {
        assert(state.monitors[monitor].workspace_area == area);
    }
}

/// An instance that a placement is applied to is on the monitor and page of the placement, under
/// its own name, and marked as turned if its layout was. It is at home if the placement says so,
/// and keeps its home otherwise. It is redrawn and announced if anything about it changed, and all
/// other workspaces stay as they are. It is hidden behind what its new monitor displays.
pub proof fn law_placed_instance_is_on_its_monitor_and_page(
    state: StateView,
    placement: PagePlacement,
    group: WorkspaceConfigView,
    m: int,
    a: int,
)
    requires
        state.is_valid(),
        windows_fit(state, placement.workspace),
        placement.page >= 1,
        placement.monitor < state.monitors.len(),
        0 <= m < state.monitors.len(),
        0 <= a < state.monitors[m].workspaces.len(),
        state.monitors[m].workspaces[a].id == placement.workspace,
        state.monitors[m].workspaces[a].config.spanning_group == Some(group.name),
    ensures
        ({
            let (next, result) = placement_applied(state, placement, group);
            let before = state.monitors[m].workspaces[a];
            let n = placement.monitor as int;
            let (host, after) = found(next.monitors, placement.workspace)->0;
            let bounds = state.monitors[n].bounds;
            let is_tall = bounds.bottom - bounds.top > bounds.right - bounds.left;
            let is_turned = ((before.layout_orientation == Orientation::Portrait)
                != before.is_transposed) != is_tall;
            let is_changed = m != n || is_turned || before.config.spanning_page != placement.page;
            &&& found(next.monitors, placement.workspace) is Some
            &&& host == n
            &&& after.monitor == Some(state.monitors[n].id)
            &&& after.config.spanning_page == placement.page
            &&& after.config.spanning_group == Some(group.name)
            &&& after.config.name == before.config.name
            &&& before.config.spanning_page == placement.page ==> after.config == before.config
            &&& after.is_transposed == (before.is_transposed != is_turned)
            &&& (after.tiling_direction != before.tiling_direction) == is_turned
            &&& after.layout_orientation == before.layout_orientation
            &&& after.home == if placement.is_home {
                Some(crate::monitor_identity::MonitorIdentityView::of(state.monitors, n))
            } else {
                before.home
            }
            &&& result == Ok::<bool, crate::wm_error::WmErrorView>(is_changed)
            &&& is_changed ==> next.pending_sync.containers_to_redraw.contains(
                placement.workspace,
            ) && next.events == state.events.push(
                crate::wm_event::WmEventView::WorkspaceUpdated {
                    updated_workspace: placement.workspace,
                },
            )
            &&& !is_changed ==> next.pending_sync == state.pending_sync && next.events
                == state.events
            &&& forall|x: u128|
                x != placement.workspace ==> #[trigger] found(next.monitors, x) == found(
                    state.monitors,
                    x,
                )
            &&& forall|o: int|
                0 <= o < state.monitors.len() && (#[trigger] state.monitors[o]).focus_order.len()
                    > 0 && !(o == m && m != n && state.monitors[m].focus_order[0]
                    == placement.workspace) ==> next.monitors[o].focus_order.len() > 0
                    && next.monitors[o].focus_order[0] == state.monitors[o].focus_order[0]
        }),
{
    crate::invariants::lemma_located_at(state.monitors, m, a);
    crate::workspace_map::lemma_found_at(state.monitors, m, a);
    crate::workspace_map::lemma_placement_found(state, placement, group);
    reveal(crate::workspace_map::is_placed);
    let n = placement.monitor as int;
    if m < n {
        assert(state.monitors[m].id != state.monitors[n].id);
    } else if n < m {
        assert(state.monitors[n].id != state.monitors[m].id);
    }
    let next = placement_applied(state, placement, group).0;
    assert forall|o: int|
        0 <= o < state.monitors.len() && (#[trigger] state.monitors[o]).focus_order.len() > 0 && !(o
            == m && m != n && state.monitors[m].focus_order[0] == placement.workspace) implies
        next.monitors[o].focus_order.len() > 0 && next.monitors[o].focus_order[0]
        == state.monitors[o].focus_order[0] by {
        assert(front(state.monitors[o]) is Some);
        assert(front(next.monitors[o]) == front(state.monitors[o]));
    }
}

} // verus!
