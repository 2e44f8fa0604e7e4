//! What operations on the state keep.
use vstd::prelude::*;

use crate::container::{
    has_nodes, node_position, ContainerRef, NodeContentView, NodeView, WindowView,
};
use crate::focus_order::{id_position, moved_to_front, without};
use crate::monitor::{lemma_workspace_position, workspace_position, MonitorView};
use crate::stable_sort::stable_sorted;
use crate::user_config::{ranked_workspaces, sorted_workspaces};
use crate::wm_state::{
    lemma_located, lemma_monitor_position, located, monitor_position, recent_window, same_layout,
    same_screen, shows, StateView,
};
use crate::workspace::WorkspaceView;
use crate::workspace_config::WorkspaceConfigView;

verus! {

/// Whether a monitor's workspaces know that they are on it, and its focus order holds exactly
/// their identifiers, each once.
pub open spec fn is_valid_monitor(monitor: MonitorView) -> bool {
    &&& monitor.focus_order.no_duplicates()
    &&& forall|a: int|
        0 <= a < monitor.workspaces.len() ==> (#[trigger] monitor.workspaces[a]).monitor == Some(
            monitor.id,
        ) && monitor.focus_order.contains(monitor.workspaces[a].id)
    &&& forall|k: int|
        0 <= k < monitor.focus_order.len() ==> monitor.position(
            #[trigger] monitor.focus_order[k],
        ) is Some
}

/// Whether no two workspaces have the same identifier.
pub open spec fn distinct_workspaces(monitors: Seq<MonitorView>) -> bool {
    forall|m: int, a: int, n: int, b: int|
        0 <= m < monitors.len() && 0 <= a < monitors[m].workspaces.len() && 0 <= n
            < monitors.len() && 0 <= b < monitors[n].workspaces.len() && (
        #[trigger] monitors[m].workspaces[a]).id == (#[trigger] monitors[n].workspaces[b]).id ==> m
            == n && a == b
}

/// Whether no two monitors have the same identifier, and each is part of the focus order.
pub open spec fn is_valid_layout(state: StateView) -> bool {
    &&& crate::page_stability::distinct_monitors(state.monitors)
    &&& forall|m: int|
        0 <= m < state.monitors.len() ==> state.focus_order.contains(
            (#[trigger] state.monitors[m]).id,
        )
}

/// Whether no two nodes have the same identifier, and each window is part of the focus order.
pub open spec fn are_valid_nodes(nodes: Seq<NodeView>, order: Seq<u128>) -> bool {
    &&& forall|i: int, j: int|
        0 <= i < j < nodes.len() ==> (#[trigger] nodes[i]).id != (#[trigger] nodes[j]).id
    &&& forall|i: int|
        0 <= i < nodes.len() && (#[trigger] nodes[i]).window() is Some ==> order.contains(
            nodes[i].id,
        )
    &&& forall|k: int|
        0 <= k < order.len() ==> node_position(nodes, #[trigger] order[k], 0) is Some
}

impl StateView {
    /// Whether the parts of the state fit together.
    pub open spec fn is_valid(self) -> bool {
        &&& is_valid_layout(self)
        &&& distinct_workspaces(self.monitors)
        &&& forall|m: int|
            0 <= m < self.monitors.len() ==> is_valid_monitor(#[trigger] self.monitors[m])
        &&& forall|m: int, a: int|
            0 <= m < self.monitors.len() && 0 <= a < self.monitors[m].workspaces.len() ==> (
            #[trigger] self.monitors[m].workspaces[a]).id < self.next_id
        &&& are_valid_nodes(self.nodes, self.window_focus_order)
    }
}

/// Whether a node is the same but for its tiling direction and floating placement.
pub open spec fn same_node(a: NodeView, b: NodeView) -> bool {
    &&& a.id == b.id
    &&& a.workspace == b.workspace
    &&& a.parent == b.parent
    &&& a.area == b.area
    &&& match (a.content, b.content) {
        (NodeContentView::Split { .. }, NodeContentView::Split { .. }) => true,
        (NodeContentView::Window(v), NodeContentView::Window(w)) => {
            &&& v.native == w.native
            &&& v.title == w.title
            &&& v.class_name == w.class_name
            &&& v.process_name == w.process_name
            &&& v.frame == w.frame
            &&& v.is_minimized == w.is_minimized
            &&& v.is_maximized == w.is_maximized
            &&& v.state == w.state
            &&& v.prev_state == w.prev_state
            &&& v.display_state == w.display_state
            &&& v.active_drag == w.active_drag
            &&& v.insertion_target == w.insertion_target
            &&& v.done_window_rules == w.done_window_rules
            &&& v.floating_placement.spec_width() == w.floating_placement.spec_width()
            &&& v.floating_placement.spec_height() == w.floating_placement.spec_height()
        },
        _ => false,
    }
}

/// Whether the windows and split containers are the same, and in the same workspaces.
pub open spec fn same_tree(a: Seq<NodeView>, b: Seq<NodeView>) -> bool {
    a.len() == b.len() && forall|i: int| #![trigger a[i]] #![trigger b[i]]
        0 <= i < a.len() ==> same_node(a[i], b[i])
}

/// Whether a workspace is an instance of a spanning workspace.
pub open spec fn is_spanning(workspace: WorkspaceView) -> bool {
    workspace.config.spanning_group is Some
}

/// Whether an identifier is that of an instance of a spanning workspace, or is yet to be given
/// to a workspace.
pub open spec fn may_span(state: StateView, id: u128) -> bool {
    id >= state.next_id || exists|m: int, a: int|
        0 <= m < state.monitors.len() && 0 <= a < state.monitors[m].workspaces.len() && (
        #[trigger] state.monitors[m].workspaces[a]).id == id && is_spanning(
            state.monitors[m].workspaces[a],
        )
}

/// Whether the windows of a workspace can be centered on every monitor without leaving the
/// coordinate range.
#[verifier::opaque]
pub open spec fn windows_fit(state: StateView, id: u128) -> bool {
    forall|i: int, m: int|
        0 <= i < state.nodes.len() && 0 <= m < state.monitors.len() && (
        #[trigger] state.nodes[i]).workspace == id && state.nodes[i].window() is Some
            ==> state.nodes[i].window()->0.floating_placement.can_center(
            (#[trigger] state.monitors[m]).workspace_area,
        )
}

/// Whether the windows of spanning workspaces can be centered on every monitor without leaving
/// the coordinate range.
pub open spec fn placements_fit(state: StateView) -> bool {
    forall|id: u128| #[trigger] may_span(state, id) ==> windows_fit(state, id)
}

/// Windows fit on the same monitors as long as they keep their sizes.
pub proof fn lemma_windows_still_fit(a: StateView, b: StateView, id: u128)
    requires
        windows_fit(a, id),
        same_layout(a.monitors, b.monitors),
        same_tree(a.nodes, b.nodes),
    ensures
        windows_fit(b, id),
{
    reveal(windows_fit);
    assert forall|i: int, m: int|
        0 <= i < b.nodes.len() && 0 <= m < b.monitors.len() && (#[trigger] b.nodes[i]).workspace
            == id && b.nodes[i].window() is Some implies
        b.nodes[i].window()->0.floating_placement.can_center(
        (#[trigger] b.monitors[m]).workspace_area,
    ) by {
        assert(same_node(a.nodes[i], b.nodes[i]));
        assert(same_screen(a.monitors[m], b.monitors[m]));
        assert(a.nodes[i].window()->0.floating_placement.can_center(a.monitors[m].workspace_area));
    }
}

pub proof fn lemma_instance_may_span(state: StateView, m: int, a: int)
    requires
        0 <= m < state.monitors.len(),
        0 <= a < state.monitors[m].workspaces.len(),
        is_spanning(state.monitors[m].workspaces[a]),
    ensures
        may_span(state, state.monitors[m].workspaces[a].id),
{
}

/// Windows of spanning workspaces still fit as long as no other workspace becomes one.
pub proof fn lemma_placements_still_fit(before: StateView, after: StateView)
    requires
        same_layout(before.monitors, after.monitors),
        same_tree(before.nodes, after.nodes),
        before.next_id <= after.next_id,
        forall|m: int, a: int|
            0 <= m < after.monitors.len() && 0 <= a < after.monitors[m].workspaces.len()
                && is_spanning(#[trigger] after.monitors[m].workspaces[a]) ==> may_span(
                before,
                after.monitors[m].workspaces[a].id,
            ) || windows_fit(before, after.monitors[m].workspaces[a].id),
    ensures
        placements_fit(before) ==> placements_fit(after),
{
    if placements_fit(before) {
        assert forall|id: u128| #[trigger] may_span(after, id) implies windows_fit(after, id) by {
            if id >= after.next_id {
                assert(may_span(before, id));
            } else {
                let (m, a) = choose|m: int, a: int|
                    0 <= m < after.monitors.len() && 0 <= a < after.monitors[m].workspaces.len()
                        && (#[trigger] after.monitors[m].workspaces[a]).id == id && is_spanning(
                        after.monitors[m].workspaces[a],
                    );
                assert(may_span(before, id) || windows_fit(before, id));
            }
            lemma_windows_still_fit(before, after, id);
        }
    }
}

/// Windows of spanning workspaces still fit if no workspace is changed.
proof fn lemma_same_workspaces_still_fit(before: StateView, after: StateView)
    requires
        before.monitors == after.monitors,
        same_layout(before.monitors, after.monitors),
        same_tree(before.nodes, after.nodes),
        before.next_id == after.next_id,
    ensures
        placements_fit(before) ==> placements_fit(after),
{
    assert forall|m: int, a: int|
        0 <= m < after.monitors.len() && 0 <= a < after.monitors[m].workspaces.len()
            && is_spanning(#[trigger] after.monitors[m].workspaces[a]) implies may_span(
        before,
        after.monitors[m].workspaces[a].id,
    ) by {
        lemma_instance_may_span(before, m, a);
    }
    lemma_placements_still_fit(before, after);
}

/// Whether every workspace that holds anything is still there.
pub open spec fn keeps_occupied(before: StateView, after: StateView) -> bool {
    forall|id: u128|
        has_nodes(before.nodes, id) && before.locate(id) is Some ==> #[trigger] after.locate(
            id,
        ) is Some
}

/// What every operation keeps that creates at most `count` workspaces: the monitors, all
/// windows and split containers in their workspaces, those workspaces, and validity.
#[verifier::opaque]
pub open spec fn keeps(before: StateView, after: StateView, count: nat) -> bool {
    &&& same_layout(before.monitors, after.monitors)
    &&& before.focus_order.len() == after.focus_order.len()
    &&& same_tree(before.nodes, after.nodes)
    &&& placements_fit(before) ==> placements_fit(after)
    &&& before.is_valid() && before.next_id + count <= u128::MAX ==> {
        &&& after.is_valid()
        &&& before.next_id <= after.next_id <= before.next_id + count
        &&& keeps_occupied(before, after)
    }
}

/// What is kept whether or not the state is valid.
pub proof fn lemma_kept(before: StateView, after: StateView, count: nat)
    requires
        keeps(before, after, count),
    ensures
        same_layout(before.monitors, after.monitors),
        before.focus_order.len() == after.focus_order.len(),
        same_tree(before.nodes, after.nodes),
        placements_fit(before) ==> placements_fit(after),
{
    reveal(keeps);
}

/// What is kept of a valid state.
pub proof fn lemma_kept_valid(before: StateView, after: StateView, count: nat)
    requires
        keeps(before, after, count),
        before.is_valid(),
        before.next_id + count <= u128::MAX,
    ensures
        after.is_valid(),
        before.next_id <= after.next_id <= before.next_id + count,
        keeps_occupied(before, after),
{
    reveal(keeps);
}

pub proof fn lemma_keeps_itself(state: StateView)
    ensures
        forall|count: nat| #[trigger] keeps(state, state, count),
{
    reveal(keeps);
    assert forall|i: int| #![trigger state.nodes[i]]
        0 <= i < state.nodes.len() implies same_node(state.nodes[i], state.nodes[i]) by {
        match state.nodes[i].content {
            NodeContentView::Split { .. } => {},
            NodeContentView::Window(_) => {},
        }
    }
}

pub proof fn lemma_keeps_transitive(a: StateView, b: StateView, c: StateView, m: nat, n: nat)
    requires
        keeps(a, b, m),
        keeps(b, c, n),
    ensures
        keeps(a, c, m + n),
{
    reveal(keeps);
    assert forall|i: int| #![trigger a.nodes[i]] #![trigger c.nodes[i]]
        0 <= i < a.nodes.len() implies same_node(a.nodes[i], c.nodes[i]) by {
        assert(same_node(a.nodes[i], b.nodes[i]));
        assert(same_node(b.nodes[i], c.nodes[i]));
    }
    assert forall|i: int| #![trigger a.monitors[i]] #![trigger c.monitors[i]]
        0 <= i < a.monitors.len() implies same_screen(a.monitors[i], c.monitors[i]) by {
        assert(same_screen(a.monitors[i], b.monitors[i]));
        assert(same_screen(b.monitors[i], c.monitors[i]));
    }
    if a.is_valid() && a.next_id + m + n <= u128::MAX {
        assert forall|id: u128|
            has_nodes(a.nodes, id) && a.locate(id) is Some implies #[trigger] c.locate(
            id,
        ) is Some by {
            lemma_same_tree_occupies(a.nodes, b.nodes, id);
            assert(b.locate(id) is Some);
        }
    }
}

/// Allowing for more new workspaces keeps no more.
pub proof fn lemma_keeps_more(a: StateView, b: StateView, m: nat, n: nat)
    requires
        keeps(a, b, m),
        m <= n,
    ensures
        keeps(a, b, n),
{
    reveal(keeps);
}

pub proof fn lemma_same_tree_occupies(a: Seq<NodeView>, b: Seq<NodeView>, id: u128)
    requires
        same_tree(a, b),
    ensures
        has_nodes(a, id) <==> has_nodes(b, id),
{
    if has_nodes(a, id) {
        let i = choose|i: int| 0 <= i < a.len() && (#[trigger] a[i]).workspace == id;
        assert(b[i].workspace == id);
    }
    if has_nodes(b, id) {
        let i = choose|i: int| 0 <= i < b.len() && (#[trigger] b[i]).workspace == id;
        assert(a[i].workspace == id);
    }
}

/// A workspace that is on a monitor can be located.
pub proof fn lemma_is_located(monitors: Seq<MonitorView>, m: int, a: int, from: int)
    requires
        0 <= from <= m < monitors.len(),
        0 <= a < monitors[m].workspaces.len(),
    ensures
        located(monitors, monitors[m].workspaces[a].id, from) is Some,
    decreases m - from,
{
    let id = monitors[m].workspaces[a].id;
    lemma_workspace_position(monitors[from].workspaces, id, 0);
    if from < m {
        lemma_is_located(monitors, m, a, from + 1);
    }
}

/// With distinct workspaces, a workspace is located exactly where it is.
pub proof fn lemma_located_at(monitors: Seq<MonitorView>, m: int, a: int)
    requires
        distinct_workspaces(monitors),
        0 <= m < monitors.len(),
        0 <= a < monitors[m].workspaces.len(),
    ensures
        located(monitors, monitors[m].workspaces[a].id, 0) == Some((m, a)),
        monitors[m].position(monitors[m].workspaces[a].id) == Some(a),
{
    let id = monitors[m].workspaces[a].id;
    lemma_is_located(monitors, m, a, 0);
    lemma_located(monitors, id, 0);
    let (n, b) = located(monitors, id, 0)->0;
    assert(monitors[n].workspaces[b].id == id);
}

/// The workspaces of a monitor in another order are still the same, each once.
pub proof fn lemma_sorted_workspaces(
    configs: Seq<WorkspaceConfigView>,
    workspaces: Seq<WorkspaceView>,
)
    ensures
        sorted_workspaces(configs, workspaces).len() == workspaces.len(),
        forall|k: int|
            0 <= k < workspaces.len() ==> workspaces.contains(
                #[trigger] sorted_workspaces(configs, workspaces)[k],
            ),
        forall|k: int|
            0 <= k < workspaces.len() ==> sorted_workspaces(configs, workspaces).contains(
                #[trigger] workspaces[k],
            ),
        workspaces.no_duplicates() ==> sorted_workspaces(configs, workspaces).no_duplicates(),
{
    let ranked = ranked_workspaces(configs, workspaces);
    let order = stable_sorted(ranked);
    let sorted = sorted_workspaces(configs, workspaces);
    crate::stable_sort::lemma_sorting_keeps(ranked);
    assert forall|k: int| 0 <= k < workspaces.len() implies workspaces.contains(
        #[trigger] sorted[k],
    ) by {
        assert(ranked.contains(order[k]));
        let j = choose|j: int| 0 <= j < ranked.len() && ranked[j] == order[k];
        assert(workspaces[j] == sorted[k]);
    }
    assert forall|k: int| 0 <= k < workspaces.len() implies sorted.contains(
        #[trigger] workspaces[k],
    ) by {
        assert(order.contains(ranked[k]));
        let j = choose|j: int| 0 <= j < order.len() && order[j] == ranked[k];
        assert(sorted[j] == workspaces[k]);
    }
    if workspaces.no_duplicates() {
        assert(ranked.no_duplicates()) by {
            assert forall|i: int, j: int|
                0 <= i < ranked.len() && 0 <= j < ranked.len() && i != j implies ranked[i]
                != ranked[j] by {
                assert(ranked[i].item == workspaces[i] && ranked[j].item == workspaces[j]);
            }
        }
        crate::stable_sort::lemma_sorting_keeps_distinct(ranked);
        assert forall|i: int, j: int|
            0 <= i < sorted.len() && 0 <= j < sorted.len() && i != j implies sorted[i]
            != sorted[j] by {
            assert(ranked.contains(order[i]) && ranked.contains(order[j]));
            let x = choose|x: int| 0 <= x < ranked.len() && ranked[x] == order[i];
            let y = choose|y: int| 0 <= y < ranked.len() && ranked[y] == order[j];
            assert(ranked[x].item == workspaces[x] && ranked[y].item == workspaces[y]);
            assert(order[i] != order[j]);
        }
    }
}

/// Whether a monitor can be replaced by a valid one whose workspaces are on no other monitor.
pub open spec fn can_replace(state: StateView, m: int, value: MonitorView) -> bool {
    &&& is_valid_monitor(value)
    &&& forall|a: int, b: int|
        0 <= a < value.workspaces.len() && 0 <= b < value.workspaces.len() && (
        #[trigger] value.workspaces[a]).id == (#[trigger] value.workspaces[b]).id ==> a == b
    &&& forall|a: int|
        0 <= a < value.workspaces.len() ==> (#[trigger] value.workspaces[a]).id
            < state.next_id
    &&& forall|a: int, n: int, b: int|
        0 <= a < value.workspaces.len() && 0 <= n < state.monitors.len() && n != m && 0
            <= b < state.monitors[n].workspaces.len() ==> (#[trigger] value.workspaces[a]).id
            != (#[trigger] state.monitors[n].workspaces[b]).id
    &&& forall|a: int|
        0 <= a < state.monitors[m].workspaces.len() && has_nodes(
            state.nodes,
            (#[trigger] state.monitors[m].workspaces[a]).id,
        ) ==> workspace_position(
            value.workspaces,
            state.monitors[m].workspaces[a].id,
            0,
        ) is Some
}

/// Replacing a monitor by a valid one keeps the state valid.
pub proof fn lemma_set_monitor_valid(state: StateView, m: int, value: MonitorView)
    requires
        state.is_valid(),
        0 <= m < state.monitors.len(),
        same_screen(state.monitors[m], value),
        can_replace(state, m, value),
    ensures
        state.set_monitor(m, value).is_valid(),
        keeps_occupied(state, state.set_monitor(m, value)),
{
    let next = state.set_monitor(m, value);
    assert forall|i: int| #![trigger state.monitors[i]] #![trigger next.monitors[i]]
        0 <= i < state.monitors.len() implies same_screen(state.monitors[i], next.monitors[i]) by {}
    assert forall|i: int, a: int, n: int, b: int|
        0 <= i < next.monitors.len() && 0 <= a < next.monitors[i].workspaces.len() && 0 <= n
            < next.monitors.len() && 0 <= b < next.monitors[n].workspaces.len() && (
        #[trigger] next.monitors[i].workspaces[a]).id == (
        #[trigger] next.monitors[n].workspaces[b]).id implies i == n && a == b by {
        if i == m && n == m {
            assert(value.workspaces[a].id == value.workspaces[b].id);
        } else if i == m {
            assert(value.workspaces[a].id == state.monitors[n].workspaces[b].id);
        } else if n == m {
            assert(value.workspaces[b].id == state.monitors[i].workspaces[a].id);
        } else {
            assert(state.monitors[i].workspaces[a].id == state.monitors[n].workspaces[b].id);
        }
    }
    assert forall|id: u128|
        has_nodes(state.nodes, id) && state.locate(id) is Some implies #[trigger] next.locate(
        id,
    ) is Some by {
        lemma_located(state.monitors, id, 0);
        let (n, b) = state.locate(id)->0;
        if n == m {
            lemma_workspace_position(value.workspaces, id, 0);
            let a = workspace_position(value.workspaces, id, 0)->0;
            lemma_is_located(next.monitors, m, a, 0);
        } else {
            lemma_is_located(next.monitors, n, b, 0);
        }
    }
}

/// A monitor can be replaced by a valid one whose workspaces are on no other monitor.
pub proof fn lemma_set_monitor_keeps(state: StateView, m: int, value: MonitorView)
    requires
        0 <= m < state.monitors.len(),
        same_screen(state.monitors[m], value),
        state.is_valid() ==> can_replace(state, m, value),
        forall|a: int|
            0 <= a < value.workspaces.len() && is_spanning(#[trigger] value.workspaces[a])
                ==> may_span(state, value.workspaces[a].id) || windows_fit(
                state,
                value.workspaces[a].id,
            ),
    ensures
        keeps(state, state.set_monitor(m, value), 0),
{
    reveal(keeps);
    let next = state.set_monitor(m, value);
    lemma_keeps_itself(state);
    assert forall|i: int| #![trigger state.monitors[i]] #![trigger next.monitors[i]]
        0 <= i < state.monitors.len() implies same_screen(state.monitors[i], next.monitors[i]) by {}
    assert forall|n: int, a: int|
        0 <= n < next.monitors.len() && 0 <= a < next.monitors[n].workspaces.len() && is_spanning(
            #[trigger] next.monitors[n].workspaces[a],
        ) implies may_span(state, next.monitors[n].workspaces[a].id) || windows_fit(
        state,
        next.monitors[n].workspaces[a].id,
    ) by {
        if n != m {
            lemma_instance_may_span(state, n, a);
        } else {
            assert(is_spanning(value.workspaces[a]));
        }
    }
    lemma_placements_still_fit(state, next);
    if state.is_valid() {
        lemma_set_monitor_valid(state, m, value);
    }
}

/// Replacing a workspace by one with the same identifier keeps everything.
pub proof fn lemma_set_workspace_keeps(state: StateView, place: (int, int), value: WorkspaceView)
    requires
        0 <= place.0 < state.monitors.len(),
        0 <= place.1 < state.monitors[place.0].workspaces.len(),
        value.id == state.workspace(place).id,
        value.monitor == state.workspace(place).monitor,
        is_spanning(value) ==> is_spanning(state.workspace(place)) || windows_fit(state, value.id),
    ensures
        keeps(state, state.set_workspace(place, value), 0),
{
    reveal(keeps);
    let monitor = state.monitors[place.0];
    let replaced = monitor.replace(place.1, value);
    if state.is_valid() {
        assert(is_valid_monitor(monitor));
        assert forall|a: int| 0 <= a < replaced.workspaces.len() implies (
        #[trigger] replaced.workspaces[a]).id == monitor.workspaces[a].id
            && replaced.workspaces[a].monitor == monitor.workspaces[a].monitor by {}
        assert forall|id: u128| #[trigger]
            workspace_position(replaced.workspaces, id, 0) == workspace_position(
                monitor.workspaces,
                id,
                0,
            ) by {
            lemma_same_ids_same_position(replaced.workspaces, monitor.workspaces, id, 0);
        }
        assert forall|a: int| 0 <= a < monitor.workspaces.len() implies workspace_position(
            replaced.workspaces,
            (#[trigger] monitor.workspaces[a]).id,
            0,
        ) is Some by {
            lemma_located_at(state.monitors, place.0, a);
        }
        assert forall|k: int| 0 <= k < replaced.focus_order.len() implies replaced.position(
            #[trigger] replaced.focus_order[k],
        ) is Some by {
            assert(monitor.position(monitor.focus_order[k]) is Some);
        }
        assert forall|a: int, b: int|
            0 <= a < replaced.workspaces.len() && 0 <= b < replaced.workspaces.len() && (
            #[trigger] replaced.workspaces[a]).id == (
            #[trigger] replaced.workspaces[b]).id implies a == b by {
            assert(state.monitors[place.0].workspaces[a].id
                == state.monitors[place.0].workspaces[b].id);
        }
        assert forall|a: int| 0 <= a < replaced.workspaces.len() implies (
        #[trigger] replaced.workspaces[a]).id < state.next_id by {
            assert(state.monitors[place.0].workspaces[a].id < state.next_id);
        }
        assert forall|a: int, n: int, b: int|
            0 <= a < replaced.workspaces.len() && 0 <= n < state.monitors.len() && n != place.0
                && 0 <= b < state.monitors[n].workspaces.len() implies (
        #[trigger] replaced.workspaces[a]).id != (
        #[trigger] state.monitors[n].workspaces[b]).id by {
            assert(state.monitors[place.0].workspaces[a].id == replaced.workspaces[a].id);
        }
    }
    assert forall|a: int|
        0 <= a < replaced.workspaces.len() && is_spanning(
            #[trigger] replaced.workspaces[a],
        ) implies may_span(state, replaced.workspaces[a].id) || windows_fit(
        state,
        replaced.workspaces[a].id,
    ) by {
        if a != place.1 || is_spanning(state.workspace(place)) {
            lemma_instance_may_span(state, place.0, a);
        }
    }
    lemma_set_monitor_keeps(state, place.0, replaced);
}

pub proof fn lemma_same_ids_same_position(
    a: Seq<WorkspaceView>,
    b: Seq<WorkspaceView>,
    id: u128,
    from: int,
)
    requires
        0 <= from,
        a.len() == b.len(),
        forall|i: int| 0 <= i < a.len() ==> (#[trigger] a[i]).id == b[i].id,
    ensures
        workspace_position(a, id, from) == workspace_position(b, id, from),
    decreases a.len() - from,
{
    if from < a.len() {
        assert(a[from].id == b[from].id);
        lemma_same_ids_same_position(a, b, id, from + 1);
    }
}

/// Attaching a workspace that is new keeps the state valid.
pub proof fn lemma_attach_valid(state: StateView, m: int, workspace: WorkspaceView)
    requires
        state.is_valid(),
        0 <= m < state.monitors.len(),
        workspace.id < state.next_id,
        state.locate(workspace.id) is None,
    ensures
        state.attach(m, workspace).is_valid(),
        keeps_occupied(state, state.attach(m, workspace)),
{
    let monitor = state.monitors[m];
    let attached = monitor.attach(workspace);
    let id = workspace.id;
    if state.is_valid() {
        assert(is_valid_monitor(monitor));
        assert forall|n: int, b: int|
            0 <= n < state.monitors.len() && 0 <= b
                < state.monitors[n].workspaces.len() implies (
        #[trigger] state.monitors[n].workspaces[b]).id != id by {
            if state.monitors[n].workspaces[b].id == id {
                lemma_is_located(state.monitors, n, b, 0);
            }
        }
        let last = monitor.workspaces.len() as int;
        assert forall|a: int| 0 <= a < last implies #[trigger] attached.workspaces[a]
            == monitor.workspaces[a] && monitor.workspaces[a].id != id by {
            assert(state.monitors[m].workspaces[a].id != id);
        }
        assert(!monitor.focus_order.contains(id)) by {
            if monitor.focus_order.contains(id) {
                let k = choose|k: int|
                    0 <= k < monitor.focus_order.len() && monitor.focus_order[k] == id;
                assert(monitor.position(monitor.focus_order[k]) is Some);
                lemma_workspace_position(monitor.workspaces, id, 0);
                let a = monitor.position(id)->0;
                assert(state.monitors[m].workspaces[a].id != id);
            }
        }
        assert(attached.focus_order.no_duplicates());
        assert forall|a: int| 0 <= a < attached.workspaces.len() implies (
        #[trigger] attached.workspaces[a]).monitor == Some(attached.id)
            && attached.focus_order.contains(attached.workspaces[a].id) by {
            if a < last {
                assert(monitor.focus_order.contains(monitor.workspaces[a].id));
                let k = choose|k: int|
                    0 <= k < monitor.focus_order.len() && monitor.focus_order[k]
                        == monitor.workspaces[a].id;
                assert(attached.focus_order[k] == attached.workspaces[a].id);
            } else {
                assert(attached.focus_order[monitor.focus_order.len() as int] == id);
            }
        }
        assert forall|k: int| 0 <= k < attached.focus_order.len() implies attached.position(
            #[trigger] attached.focus_order[k],
        ) is Some by {
            let order_id = attached.focus_order[k];
            lemma_workspace_position(attached.workspaces, order_id, 0);
            if k < monitor.focus_order.len() {
                assert(monitor.position(monitor.focus_order[k]) is Some);
                lemma_workspace_position(monitor.workspaces, order_id, 0);
                let a = monitor.position(order_id)->0;
                assert(attached.workspaces[a].id == order_id);
            } else {
                assert(attached.workspaces[last].id == order_id);
            }
        }
        assert forall|a: int, b: int|
            0 <= a < attached.workspaces.len() && 0 <= b < attached.workspaces.len() && (
            #[trigger] attached.workspaces[a]).id == (
            #[trigger] attached.workspaces[b]).id implies a == b by {
            if a < last && b < last {
                assert(state.monitors[m].workspaces[a].id == state.monitors[m].workspaces[b].id);
            }
        }
        assert forall|a: int| 0 <= a < attached.workspaces.len() implies (
        #[trigger] attached.workspaces[a]).id < state.next_id by {
            if a < last {
                assert(state.monitors[m].workspaces[a].id < state.next_id);
            }
        }
        assert forall|a: int, n: int, b: int|
            0 <= a < attached.workspaces.len() && 0 <= n < state.monitors.len() && n != m && 0 <= b
                < state.monitors[n].workspaces.len() implies (
        #[trigger] attached.workspaces[a]).id != (
        #[trigger] state.monitors[n].workspaces[b]).id by {
            if a < last {
                assert(state.monitors[m].workspaces[a].id == attached.workspaces[a].id);
            }
        }
        assert forall|a: int| 0 <= a < monitor.workspaces.len() implies workspace_position(
            attached.workspaces,
            (#[trigger] monitor.workspaces[a]).id,
            0,
        ) is Some by {
            lemma_workspace_position(attached.workspaces, monitor.workspaces[a].id, 0);
            assert(attached.workspaces[a].id == monitor.workspaces[a].id);
        }
    }
    lemma_set_monitor_valid(state, m, attached);
}

/// The order without an identifier holds exactly the other ones.
pub proof fn lemma_without(ids: Seq<u128>, id: u128)
    requires
        ids.no_duplicates(),
    ensures
        without(ids, id).no_duplicates(),
        forall|x: u128| #[trigger]
            without(ids, id).contains(x) <==> ids.contains(x) && x != id,
{
    crate::focus_order::lemma_id_position(ids, id, 0);
    match id_position(ids, id, 0) {
        Some(at) => {
            let rest = ids.remove(at);
            assert forall|x: u128| #[trigger]
                rest.contains(x) <==> ids.contains(x) && x != id by {
                if rest.contains(x) {
                    let k = choose|k: int| 0 <= k < rest.len() && rest[k] == x;
                    let j = if k < at {
                        k
                    } else {
                        k + 1
                    };
                    assert(ids[j] == x);
                }
                if ids.contains(x) && x != id {
                    let j = choose|j: int| 0 <= j < ids.len() && ids[j] == x;
                    let k = if j < at {
                        j
                    } else {
                        j - 1
                    };
                    assert(rest[k] == x);
                }
            }
            assert forall|i: int, j: int|
                0 <= i < rest.len() && 0 <= j < rest.len() && i != j implies rest[i]
                != rest[j] by {
                let x = if i < at {
                    i
                } else {
                    i + 1
                };
                let y = if j < at {
                    j
                } else {
                    j + 1
                };
                assert(rest[i] == ids[x] && rest[j] == ids[y]);
            }
        },
        None => {
            assert(!ids.contains(id));
        },
    }
}

/// Moving an identifier to the front neither adds nor loses one.
pub proof fn lemma_moved_to_front(ids: Seq<u128>, id: u128)
    ensures
        forall|x: u128| #[trigger] moved_to_front(ids, id).contains(x) <==> ids.contains(x),
        ids.no_duplicates() ==> moved_to_front(ids, id).no_duplicates(),
        ids.contains(id) ==> moved_to_front(ids, id).len() > 0 && moved_to_front(ids, id)[0] == id,
        moved_to_front(ids, id).len() == ids.len(),
{
    crate::focus_order::lemma_id_position(ids, id, 0);
    let moved = moved_to_front(ids, id);
    match id_position(ids, id, 0) {
        Some(at) => {
            let rest = ids.remove(at);
            assert(moved =~= seq![id] + rest);
            assert forall|x: u128| #[trigger] moved.contains(x) <==> ids.contains(x) by {
                if moved.contains(x) {
                    let k = choose|k: int| 0 <= k < moved.len() && moved[k] == x;
                    if k > 0 {
                        let j = if k - 1 < at {
                            k - 1
                        } else {
                            k
                        };
                        assert(ids[j] == x);
                    } else {
                        assert(ids[at] == x);
                    }
                }
                if ids.contains(x) {
                    let j = choose|j: int| 0 <= j < ids.len() && ids[j] == x;
                    if j == at {
                        assert(moved[0] == x);
                    } else if j < at {
                        assert(moved[j + 1] == x);
                    } else {
                        assert(moved[j] == x);
                    }
                }
            }
            if ids.no_duplicates() {
                assert forall|i: int, j: int|
                    0 <= i < moved.len() && 0 <= j < moved.len() && i != j implies moved[i]
                    != moved[j] by {
                    let x = if i == 0 {
                        at
                    } else if i - 1 < at {
                        i - 1
                    } else {
                        i
                    };
                    let y = if j == 0 {
                        at
                    } else if j - 1 < at {
                        j - 1
                    } else {
                        j
                    };
                    assert(moved[i] == ids[x] && moved[j] == ids[y]);
                }
            }
        },
        None => {
            assert(!ids.contains(id));
        },
    }
}

/// What detaching a workspace leaves behind: a valid state without the workspace. Everything
/// else stays where it is.
pub proof fn lemma_detach(state: StateView, place: (int, int))
    requires
        0 <= place.0 < state.monitors.len(),
        0 <= place.1 < state.monitors[place.0].workspaces.len(),
        state.is_valid(),
    ensures
        state.detach(place).is_valid(),
        state.detach(place).locate(state.workspace(place).id) is None,
        forall|id: u128|
            id != state.workspace(place).id && state.locate(id) is Some
                ==> #[trigger] state.detach(place).locate(id) is Some,
{
    let (m, at) = place;
    let monitor = state.monitors[m];
    let detached = monitor.detach(at);
    let next = state.detach(place);
    let id = monitor.workspaces[at].id;
    let rest = detached.workspaces;
    assert(is_valid_monitor(monitor));
    lemma_without(monitor.focus_order, id);
    let old_at = |a: int| if a < at { a } else { a + 1 };
    assert forall|a: int| 0 <= a < rest.len() implies #[trigger] rest[a]
        == monitor.workspaces[old_at(a)] && rest[a].id != id by {
        let b = old_at(a);
        assert(state.monitors[m].workspaces[b].id != state.monitors[m].workspaces[at].id);
    }
    assert forall|a: int| 0 <= a < rest.len() implies (#[trigger] rest[a]).monitor == Some(
        detached.id,
    ) && detached.focus_order.contains(rest[a].id) by {
        assert(rest[a] == monitor.workspaces[old_at(a)]);
    }
    assert forall|k: int| 0 <= k < detached.focus_order.len() implies detached.position(
        #[trigger] detached.focus_order[k],
    ) is Some by {
        let x = detached.focus_order[k];
        assert(detached.focus_order.contains(x));
        let j = choose|j: int| 0 <= j < monitor.focus_order.len() && monitor.focus_order[j] == x;
        assert(monitor.position(monitor.focus_order[j]) is Some);
        lemma_workspace_position(monitor.workspaces, x, 0);
        lemma_workspace_position(rest, x, 0);
        let b = monitor.position(x)->0;
        let a = if b < at {
            b
        } else {
            b - 1
        };
        assert(rest[a].id == x);
    }
    assert forall|i: int, a: int, n: int, b: int|
        0 <= i < next.monitors.len() && 0 <= a < next.monitors[i].workspaces.len() && 0 <= n
            < next.monitors.len() && 0 <= b < next.monitors[n].workspaces.len() && (
        #[trigger] next.monitors[i].workspaces[a]).id == (
        #[trigger] next.monitors[n].workspaces[b]).id implies i == n && a == b by {
        let x = if i == m {
            old_at(a)
        } else {
            a
        };
        let y = if n == m {
            old_at(b)
        } else {
            b
        };
        assert(state.monitors[i].workspaces[x] == next.monitors[i].workspaces[a]);
        assert(state.monitors[n].workspaces[y] == next.monitors[n].workspaces[b]);
    }
    assert forall|i: int, a: int|
        0 <= i < next.monitors.len() && 0 <= a < next.monitors[i].workspaces.len() implies (
    #[trigger] next.monitors[i].workspaces[a]).id < next.next_id && next.monitors[i].workspaces[a].id
        != id by {
        let x = if i == m {
            old_at(a)
        } else {
            a
        };
        assert(state.monitors[i].workspaces[x] == next.monitors[i].workspaces[a]);
        assert(state.monitors[i].workspaces[x].id < state.next_id);
        assert(state.monitors[m].workspaces[at].id == id);
    }
    assert(next.locate(id) is None) by {
        lemma_located(next.monitors, id, 0);
    }
    assert forall|other: u128|
        other != id && state.locate(other) is Some implies #[trigger] next.locate(
        other,
    ) is Some by {
        lemma_located(state.monitors, other, 0);
        let (n, b) = state.locate(other)->0;
        let a = if n != m || b < at {
            b
        } else {
            b - 1
        };
        assert(next.monitors[n].workspaces[a].id == other);
        lemma_is_located(next.monitors, n, a, 0);
    }
    assert forall|i: int| 0 <= i < next.monitors.len() implies is_valid_monitor(
        #[trigger] next.monitors[i],
    ) by {
        assert(is_valid_monitor(state.monitors[i]));
    }
    assert(is_valid_layout(next));
}

/// Detaching a workspace makes no other one an instance.
proof fn lemma_detached_may_span(state: StateView, place: (int, int))
    requires
        0 <= place.0 < state.monitors.len(),
        0 <= place.1 < state.monitors[place.0].workspaces.len(),
    ensures
        forall|m: int, a: int|
            0 <= m < state.monitors.len() && 0 <= a < state.detach(
                place,
            ).monitors[m].workspaces.len() && is_spanning(
                #[trigger] state.detach(place).monitors[m].workspaces[a],
            ) ==> may_span(state, state.detach(place).monitors[m].workspaces[a].id),
{
    let next = state.detach(place);
    assert forall|m: int, a: int|
        0 <= m < state.monitors.len() && 0 <= a < next.monitors[m].workspaces.len() && is_spanning(
            #[trigger] next.monitors[m].workspaces[a],
        ) implies may_span(state, next.monitors[m].workspaces[a].id) by {
        let x = if m != place.0 || a < place.1 {
            a
        } else {
            a + 1
        };
        assert(next.monitors[m].workspaces[a] == state.monitors[m].workspaces[x]);
        lemma_instance_may_span(state, m, x);
    }
}

/// Removing a workspace that holds nothing keeps everything.
pub proof fn lemma_deactivate_keeps(state: StateView, id: u128)
    requires
        !state.has_children(id),
    ensures
        keeps(state, state.deactivate(id).0, 0),
{
    reveal(keeps);
    lemma_keeps_itself(state);
    lemma_located(state.monitors, id, 0);
    if let Some(place) = state.locate(id) {
        let next = state.deactivate(id).0;
        assert forall|i: int| #![trigger state.monitors[i]] #![trigger next.monitors[i]]
            0 <= i < state.monitors.len() implies same_screen(
            state.monitors[i],
            next.monitors[i],
        ) by {}
        lemma_detached_may_span(state, place);
        assert(next.monitors == state.detach(place).monitors);
        lemma_placements_still_fit(state, next);
        if state.is_valid() {
            lemma_detach(state, place);
            assert(next.is_valid());
            assert forall|other: u128|
                has_nodes(state.nodes, other) && state.locate(other) is Some implies
                #[trigger] next.locate(other) is Some by {
                assert(state.detach(place).locate(other) is Some);
            }
        }
    }
}

/// Moving a workspace to the back of another monitor keeps everything.
pub proof fn lemma_move_keeps(
    state: StateView,
    place: (int, int),
    m: int,
    workspace: WorkspaceView,
)
    requires
        0 <= place.0 < state.monitors.len(),
        0 <= place.1 < state.monitors[place.0].workspaces.len(),
        0 <= m < state.monitors.len(),
        workspace.id == state.workspace(place).id,
        workspace.config == state.workspace(place).config,
    ensures
        keeps(state, state.detach(place).attach(m, workspace), 0),
        state.detach(place).attach(m, workspace).monitors[m].workspaces.len() > 0,
        state.detach(place).attach(m, workspace).monitors[m].workspaces.last() == (WorkspaceView {
            monitor: Some(state.monitors[m].id),
            ..workspace
        }),
{
    reveal(keeps);
    let detached = state.detach(place);
    let next = detached.attach(m, workspace);
    let id = workspace.id;
    lemma_keeps_itself(state);
    assert forall|i: int| #![trigger state.monitors[i]] #![trigger next.monitors[i]]
        0 <= i < state.monitors.len() implies same_screen(state.monitors[i], next.monitors[i]) by {}
    lemma_detached_may_span(state, place);
    assert forall|n: int, a: int|
        0 <= n < next.monitors.len() && 0 <= a < next.monitors[n].workspaces.len() && is_spanning(
            #[trigger] next.monitors[n].workspaces[a],
        ) implies may_span(state, next.monitors[n].workspaces[a].id) by {
        if n == m && a == next.monitors[n].workspaces.len() - 1 {
            lemma_instance_may_span(state, place.0, place.1);
        } else {
            assert(next.monitors[n].workspaces[a] == detached.monitors[n].workspaces[a]);
        }
    }
    lemma_placements_still_fit(state, next);
    if state.is_valid() {
        lemma_detach(state, place);
        assert(state.monitors[place.0].workspaces[place.1].id < state.next_id);
        lemma_attach_valid(detached, m, workspace);
        assert forall|other: u128|
            has_nodes(state.nodes, other) && state.locate(other) is Some implies
            #[trigger] next.locate(other) is Some by {
            let last = next.monitors[m].workspaces.len() - 1;
            if other == id {
                assert(next.monitors[m].workspaces[last].id == id);
                lemma_is_located(next.monitors, m, last, 0);
            } else {
                assert(detached.locate(other) is Some);
                assert(keeps_occupied(detached, next));
            }
        }
    }
}

/// Putting the workspaces of a monitor in order keeps everything.
pub proof fn lemma_sort_keeps(state: StateView, m: int, configs: Seq<WorkspaceConfigView>)
    requires
        0 <= m < state.monitors.len(),
    ensures
        keeps(state, state.sort(m, configs), 0),
{
    reveal(keeps);
    let monitor = state.monitors[m];
    let sorted = MonitorView {
        workspaces: sorted_workspaces(configs, monitor.workspaces),
        ..monitor
    };
    lemma_sorted_workspaces(configs, monitor.workspaces);
    if state.is_valid() {
        assert(is_valid_monitor(monitor));
        assert(monitor.workspaces.no_duplicates()) by {
            assert forall|i: int, j: int|
                0 <= i < monitor.workspaces.len() && 0 <= j < monitor.workspaces.len() && i
                    != j implies monitor.workspaces[i] != monitor.workspaces[j] by {
                assert(state.monitors[m].workspaces[i].id != state.monitors[m].workspaces[j].id);
            }
        }
        assert forall|a: int| 0 <= a < sorted.workspaces.len() implies exists|b: int|
            0 <= b < monitor.workspaces.len() && #[trigger] sorted.workspaces[a]
                == #[trigger] monitor.workspaces[b] by {
            assert(monitor.workspaces.contains(sorted.workspaces[a]));
        }
        assert forall|id: u128|
            workspace_position(monitor.workspaces, id, 0) is Some implies #[trigger] workspace_position(
            sorted.workspaces,
            id,
            0,
        ) is Some by {
            lemma_workspace_position(monitor.workspaces, id, 0);
            lemma_workspace_position(sorted.workspaces, id, 0);
            let b = workspace_position(monitor.workspaces, id, 0)->0;
            assert(sorted.workspaces.contains(monitor.workspaces[b]));
            let a = choose|a: int|
                0 <= a < sorted.workspaces.len() && sorted.workspaces[a] == monitor.workspaces[b];
            assert(sorted.workspaces[a].id == id);
        }
        assert forall|a: int| 0 <= a < sorted.workspaces.len() implies (
        #[trigger] sorted.workspaces[a]).monitor == Some(sorted.id) && sorted.focus_order.contains(
            sorted.workspaces[a].id,
        ) && sorted.workspaces[a].id < state.next_id by {
            let b = choose|b: int|
                0 <= b < monitor.workspaces.len() && sorted.workspaces[a]
                    == #[trigger] monitor.workspaces[b];
            assert(state.monitors[m].workspaces[b].id < state.next_id);
        }
        assert forall|k: int| 0 <= k < sorted.focus_order.len() implies sorted.position(
            #[trigger] sorted.focus_order[k],
        ) is Some by {
            assert(monitor.position(monitor.focus_order[k]) is Some);
        }
        assert forall|a: int, b: int|
            0 <= a < sorted.workspaces.len() && 0 <= b < sorted.workspaces.len() && (
            #[trigger] sorted.workspaces[a]).id == (
            #[trigger] sorted.workspaces[b]).id implies a == b by {
            let x = choose|x: int|
                0 <= x < monitor.workspaces.len() && sorted.workspaces[a]
                    == #[trigger] monitor.workspaces[x];
            let y = choose|y: int|
                0 <= y < monitor.workspaces.len() && sorted.workspaces[b]
                    == #[trigger] monitor.workspaces[y];
            assert(state.monitors[m].workspaces[x].id == state.monitors[m].workspaces[y].id);
        }
        assert forall|a: int, n: int, b: int|
            0 <= a < sorted.workspaces.len() && 0 <= n < state.monitors.len() && n != m && 0 <= b
                < state.monitors[n].workspaces.len() implies (#[trigger] sorted.workspaces[a]).id
            != (#[trigger] state.monitors[n].workspaces[b]).id by {
            let x = choose|x: int|
                0 <= x < monitor.workspaces.len() && sorted.workspaces[a]
                    == #[trigger] monitor.workspaces[x];
            assert(state.monitors[m].workspaces[x].id == sorted.workspaces[a].id);
        }
        assert forall|a: int| 0 <= a < monitor.workspaces.len() implies workspace_position(
            sorted.workspaces,
            (#[trigger] monitor.workspaces[a]).id,
            0,
        ) is Some by {
            lemma_located_at(state.monitors, m, a);
        }
    }
    assert forall|a: int|
        0 <= a < sorted.workspaces.len() && is_spanning(
            #[trigger] sorted.workspaces[a],
        ) implies may_span(state, sorted.workspaces[a].id) by {
        assert(monitor.workspaces.contains(sorted.workspaces[a]));
        let b = choose|b: int|
            0 <= b < monitor.workspaces.len() && monitor.workspaces[b] == sorted.workspaces[a];
        lemma_instance_may_span(state, m, b);
    }
    lemma_set_monitor_keeps(state, m, sorted);
}

/// Changes to anything else than workspaces, nodes and orders keep everything.
pub proof fn lemma_unrelated_keeps(state: StateView, next: StateView)
    requires
        next.monitors == state.monitors,
        next.focus_order == state.focus_order,
        next.nodes == state.nodes,
        next.window_focus_order == state.window_focus_order,
        next.next_id == state.next_id,
    ensures
        keeps(state, next, 0),
{
    reveal(keeps);
    lemma_keeps_itself(state);
    lemma_same_workspaces_still_fit(state, next);
    if state.is_valid() {
        assert forall|id: u128|
            has_nodes(state.nodes, id) && state.locate(id) is Some implies #[trigger] next.locate(
            id,
        ) is Some by {}
    }
}

pub proof fn lemma_same_ids_same_node_position(
    a: Seq<NodeView>,
    b: Seq<NodeView>,
    id: u128,
    from: int,
)
    requires
        0 <= from,
        same_tree(a, b),
    ensures
        node_position(a, id, from) == node_position(b, id, from),
    decreases a.len() - from,
{
    if from < a.len() {
        assert(same_node(a[from], b[from]));
        lemma_same_ids_same_node_position(a, b, id, from + 1);
    }
}

/// Changes to tiling directions and floating placements keep everything.
pub proof fn lemma_same_tree_keeps(state: StateView, next: StateView)
    requires
        next == (StateView { nodes: next.nodes, ..state }),
        same_tree(state.nodes, next.nodes),
    ensures
        keeps(state, next, 0),
{
    reveal(keeps);
    lemma_keeps_itself(state);
    assert forall|i: int| #![trigger next.nodes[i]] 0 <= i < next.nodes.len() implies same_node(
        state.nodes[i],
        next.nodes[i],
    ) && (next.nodes[i].window() is Some <==> state.nodes[i].window() is Some) by {
        match (state.nodes[i].content, next.nodes[i].content) {
            (NodeContentView::Split { .. }, NodeContentView::Split { .. }) => {},
            (NodeContentView::Window(_), NodeContentView::Window(_)) => {},
            _ => {},
        }
    }
    lemma_same_workspaces_still_fit(state, next);
    if state.is_valid() {
        assert forall|k: int| 0 <= k < next.window_focus_order.len() implies node_position(
            next.nodes,
            #[trigger] next.window_focus_order[k],
            0,
        ) is Some by {
            lemma_same_ids_same_node_position(
                state.nodes,
                next.nodes,
                next.window_focus_order[k],
                0,
            );
        }
        assert forall|i: int, j: int| 0 <= i < j < next.nodes.len() implies (
        #[trigger] next.nodes[i]).id != (#[trigger] next.nodes[j]).id by {
            assert(state.nodes[i].id != state.nodes[j].id);
        }
        assert forall|id: u128|
            has_nodes(state.nodes, id) && state.locate(id) is Some implies #[trigger] next.locate(
            id,
        ) is Some by {}
        assert(is_valid_layout(next));
    }
}

/// Focusing a container keeps everything.
pub proof fn lemma_focus_keeps(state: StateView, container: ContainerRef)
    ensures
        keeps(state, state.focus(container), 0),
{
    reveal(keeps);
    lemma_keeps_itself(state);
    match container {
        ContainerRef::Monitor(id) => {
            lemma_moved_to_front(state.focus_order, id);
            lemma_reordered_keeps(state, state.focus(container));
        },
        ContainerRef::Workspace(id) => {
            lemma_focus_workspace_keeps(state, id);
        },
        ContainerRef::Window(id) => {
            if let Some(at) = node_position(state.nodes, id, 0) {
                let bumped = StateView {
                    window_focus_order: moved_to_front(state.window_focus_order, id),
                    ..state
                };
                lemma_moved_to_front(state.window_focus_order, id);
                lemma_reordered_keeps(state, bumped);
                lemma_focus_workspace_keeps(bumped, state.nodes[at].workspace);
                lemma_keeps_transitive(state, bumped, state.focus(container), 0, 0);
            }
        },
    }
}

/// Reordering the focus orders of monitors and windows keeps everything.
proof fn lemma_reordered_keeps(state: StateView, next: StateView)
    requires
        next == (StateView {
            focus_order: next.focus_order,
            window_focus_order: next.window_focus_order,
            ..state
        }),
        next.focus_order.len() == state.focus_order.len(),
        forall|x: u128| #[trigger]
            next.focus_order.contains(x) <==> state.focus_order.contains(x),
        forall|x: u128| #[trigger]
            next.window_focus_order.contains(x) <==> state.window_focus_order.contains(x),
    ensures
        keeps(state, next, 0),
{
    reveal(keeps);
    lemma_keeps_itself(state);
    lemma_same_workspaces_still_fit(state, next);
    if state.is_valid() {
        assert forall|k: int| 0 <= k < next.window_focus_order.len() implies node_position(
            next.nodes,
            #[trigger] next.window_focus_order[k],
            0,
        ) is Some by {
            let id = next.window_focus_order[k];
            assert(next.window_focus_order.contains(id));
            let j = choose|j: int|
                0 <= j < state.window_focus_order.len() && state.window_focus_order[j] == id;
            assert(node_position(state.nodes, state.window_focus_order[j], 0) is Some);
        }
        assert forall|id: u128|
            has_nodes(state.nodes, id) && state.locate(id) is Some implies #[trigger] next.locate(
            id,
        ) is Some by {}
        assert(is_valid_layout(next));
    }
}

proof fn lemma_focus_workspace_keeps(state: StateView, id: u128)
    ensures
        keeps(state, state.focus_workspace(id), 0),
{
    reveal(keeps);
    lemma_keeps_itself(state);
    lemma_located(state.monitors, id, 0);
    if let Some((m, at)) = state.locate(id) {
        let monitor = state.monitors[m];
        let displayed = monitor.display(id);
        lemma_moved_to_front(monitor.focus_order, id);
        if state.is_valid() {
            assert(is_valid_monitor(monitor));
            assert forall|k: int| 0 <= k < displayed.focus_order.len() implies displayed.position(
                #[trigger] displayed.focus_order[k],
            ) is Some by {
                let x = displayed.focus_order[k];
                assert(displayed.focus_order.contains(x));
                let j = choose|j: int|
                    0 <= j < monitor.focus_order.len() && monitor.focus_order[j] == x;
                assert(monitor.position(monitor.focus_order[j]) is Some);
            }
            assert(is_valid_monitor(displayed));
            assert forall|a: int, b: int|
                0 <= a < displayed.workspaces.len() && 0 <= b < displayed.workspaces.len() && (
                #[trigger] displayed.workspaces[a]).id == (
                #[trigger] displayed.workspaces[b]).id implies a == b by {
                assert(state.monitors[m].workspaces[a].id == state.monitors[m].workspaces[b].id);
            }
            assert forall|a: int| 0 <= a < displayed.workspaces.len() implies (
            #[trigger] displayed.workspaces[a]).id < state.next_id by {
                assert(state.monitors[m].workspaces[a].id < state.next_id);
            }
            assert forall|a: int, n: int, b: int|
                0 <= a < displayed.workspaces.len() && 0 <= n < state.monitors.len() && n != m && 0
                    <= b < state.monitors[n].workspaces.len() implies (
            #[trigger] displayed.workspaces[a]).id != (
            #[trigger] state.monitors[n].workspaces[b]).id by {
                assert(state.monitors[m].workspaces[a].id == displayed.workspaces[a].id);
            }
            assert forall|a: int| 0 <= a < monitor.workspaces.len() implies workspace_position(
                displayed.workspaces,
                (#[trigger] monitor.workspaces[a]).id,
                0,
            ) is Some by {
                lemma_located_at(state.monitors, m, a);
            }
        }
        assert forall|a: int|
            0 <= a < displayed.workspaces.len() && is_spanning(
                #[trigger] displayed.workspaces[a],
            ) implies may_span(state, displayed.workspaces[a].id) by {
            lemma_instance_may_span(state, m, a);
        }
        lemma_set_monitor_keeps(state, m, displayed);
        let shown = state.set_monitor(m, displayed);
        let next = state.focus_workspace(id);
        lemma_moved_to_front(state.focus_order, monitor.id);
        lemma_reordered_keeps(shown, next);
        lemma_keeps_transitive(state, shown, next, 0, 0);
    }
}

/// Focusing a container leaves the workspaces where they are.
pub proof fn lemma_focus_moves_nothing(state: StateView, container: ContainerRef)
    ensures
        state.focus(container).monitors.len() == state.monitors.len(),
        forall|m: int|
            0 <= m < state.monitors.len() ==> (#[trigger] state.focus(
                container,
            ).monitors[m]).workspaces == state.monitors[m].workspaces,
{
    match container {
        ContainerRef::Monitor(_) => {},
        ContainerRef::Workspace(id) => {
            lemma_located(state.monitors, id, 0);
        },
        ContainerRef::Window(id) => {
            if let Some(at) = node_position(state.nodes, id, 0) {
                lemma_located(state.monitors, state.nodes[at].workspace, 0);
            }
        },
    }
}

/// A window that is found to be the most recently focused one of a workspace is one of its
/// nodes, and part of the focus order.
pub proof fn lemma_recent_window(
    order: Seq<u128>,
    nodes: Seq<NodeView>,
    workspace: u128,
    from: int,
)
    requires
        0 <= from,
    ensures
        recent_window(order, nodes, workspace, from) matches Some(id) ==> order.contains(id)
            && node_position(nodes, id, 0) is Some && nodes[node_position(
            nodes,
            id,
            0,
        )->0].workspace == workspace,
    decreases order.len() - from,
{
    if from < order.len() {
        lemma_recent_window(order, nodes, workspace, from + 1);
        assert(order.contains(order[from]));
    }
}

/// Which window of a workspace was focused most recently depends on the focus order and on
/// which windows the workspace holds.
pub proof fn lemma_recent_window_stays(
    order: Seq<u128>,
    a: Seq<NodeView>,
    b: Seq<NodeView>,
    workspace: u128,
    from: int,
)
    requires
        0 <= from,
        same_tree(a, b),
    ensures
        recent_window(order, a, workspace, from) == recent_window(order, b, workspace, from),
    decreases order.len() - from,
{
    if from < order.len() {
        lemma_same_ids_same_node_position(a, b, order[from], 0);
        crate::container::lemma_node_position(a, order[from], 0);
        if let Some(at) = node_position(a, order[from], 0) {
            assert(same_node(a[at], b[at]));
        }
        lemma_recent_window_stays(order, a, b, workspace, from + 1);
    }
}

/// Whether focus goes to a container itself when it is focused, and not to a window in it.
pub open spec fn takes_focus(state: StateView, container: ContainerRef) -> bool {
    match container {
        ContainerRef::Monitor(_) => false,
        ContainerRef::Workspace(id) => state.container_to_focus(id) == container && state.locate(
            id,
        ) is Some,
        ContainerRef::Window(id) => state.window_focus_order.contains(id) && match node_position(
            state.nodes,
            id,
            0,
        ) {
            Some(at) => state.locate(state.nodes[at].workspace) is Some,
            None => false,
        },
    }
}

/// A window, or a workspace without windows, has focus after it was focused.
pub proof fn law_focused_container_has_focus(state: StateView, container: ContainerRef)
    requires
        state.is_valid(),
        takes_focus(state, container),
    ensures
        state.focus(container).focused_container() == Some(container),
{
    let next = state.focus(container);
    lemma_focus_keeps(state, container);
    lemma_kept_valid(state, next, 0);
    let id = match container {
        ContainerRef::Window(window) => state.nodes[node_position(
            state.nodes,
            window,
            0,
        )->0].workspace,
        ContainerRef::Workspace(workspace) => workspace,
        ContainerRef::Monitor(monitor) => monitor,
    };
    lemma_located(state.monitors, id, 0);
    let (m, at) = state.locate(id)->0;
    let monitor = state.monitors[m];
    assert(is_valid_monitor(monitor));
    assert(monitor.workspaces[at].id == id);
    lemma_moved_to_front(monitor.focus_order, id);
    lemma_moved_to_front(state.focus_order, monitor.id);
    assert(next.monitors[m].id == monitor.id);
    assert(next.focus_order[0] == monitor.id);
    crate::page_stability::lemma_monitor_position_exact(next.monitors, m, 0);
    assert(next.focused_monitor() == Some(m));
    assert(next.monitors[m].focus_order[0] == id);
    assert(next.monitors[m].displayed() == Some(at));
    match container {
        ContainerRef::Window(window) => {
            lemma_moved_to_front(state.window_focus_order, window);
            assert(next.window_focus_order[0] == window);
            assert(recent_window(next.window_focus_order, next.nodes, id, 0) == Some(window));
        },
        _ => {},
    }
}

/// Removing a workspace that isn't displayed changes neither what the monitors display nor what
/// has focus.
pub proof fn lemma_deactivate_keeps_focus(state: StateView, id: u128)
    requires
        state.is_valid(),
        !state.is_displayed(id),
    ensures
        forall|m: int, w: u128|
            0 <= m < state.monitors.len() ==> (#[trigger] shows(
                state.deactivate(id).0.monitors[m],
                w,
            ) <==> shows(state.monitors[m], w)),
        state.deactivate(id).0.focused_container() == state.focused_container(),
        state.deactivate(id).0.focused_monitor() == state.focused_monitor(),
{
    lemma_located(state.monitors, id, 0);
    if let Some(place) = state.locate(id) {
        let next = state.deactivate(id).0;
        let (m, at) = place;
        let monitor = state.monitors[m];
        let detached = monitor.detach(at);
        assert(is_valid_monitor(monitor));
        lemma_detach(state, place);
        assert(state.detach(place).monitors[m] == detached);
        assert(is_valid_monitor(detached));
        lemma_same_monitor_position(state.monitors, next.monitors, 0);
        if monitor.focus_order.len() > 0 {
            let first = monitor.focus_order[0];
            assert(monitor.position(first) is Some);
            lemma_workspace_position(monitor.workspaces, first, 0);
            let shown = monitor.displayed()->0;
            assert(monitor.workspaces[shown].id == first);
            assert(first != id);
            crate::focus_order::lemma_id_position(monitor.focus_order, id, 0);
            assert(detached.focus_order[0] == first) by {
                let removed = id_position(monitor.focus_order, id, 0);
                if removed is Some {
                    assert(monitor.focus_order[removed->0] == id);
                }
            }
            assert(detached.position(detached.focus_order[0]) is Some);
            lemma_workspace_position(detached.workspaces, first, 0);
            assert(detached.workspaces[detached.displayed()->0].id == first);
        } else {
            assert(detached.focus_order.len() == 0) by {
                lemma_without(monitor.focus_order, id);
                if detached.focus_order.len() > 0 {
                    assert(detached.focus_order.contains(detached.focus_order[0]));
                }
            }
        }
        if state.focus_order.len() > 0 {
            lemma_monitor_position(state.monitors, state.focus_order[0], 0);
        }
        assert forall|w: u128| #[trigger]
            next.container_to_focus(w) == state.container_to_focus(w) by {}
    }
}

pub proof fn lemma_same_monitor_position(a: Seq<MonitorView>, b: Seq<MonitorView>, from: int)
    requires
        0 <= from,
        a.len() == b.len(),
        forall|m: int| 0 <= m < a.len() ==> (#[trigger] a[m]).id == b[m].id,
    ensures
        forall|id: u128| #[trigger]
            monitor_position(a, id, from) == monitor_position(b, id, from),
    decreases a.len() - from,
{
    if from < a.len() {
        lemma_same_monitor_position(a, b, from + 1);
        assert forall|id: u128| #[trigger]
            monitor_position(a, id, from) == monitor_position(b, id, from) by {
            assert(a[from].id == b[from].id);
            assert(monitor_position(a, id, from + 1) == monitor_position(b, id, from + 1));
        }
    }
}

/// Changing a window in place keeps a valid state valid.
pub proof fn lemma_window_change_stays_valid(state: StateView, at: int, window: WindowView)
    requires
        state.is_valid(),
        0 <= at < state.nodes.len(),
        state.nodes[at].window() is Some,
    ensures
        (StateView {
            nodes: state.nodes.update(at, state.nodes[at].with_window(window)),
            ..state
        }).is_valid(),
{
    let next = StateView {
        nodes: state.nodes.update(at, state.nodes[at].with_window(window)),
        ..state
    };
    assert forall|i: int| 0 <= i < next.nodes.len() implies (#[trigger] next.nodes[i]).id
        == state.nodes[i].id && (next.nodes[i].window() is Some <==> state.nodes[i].window()
        is Some) by {}
    assert forall|i: int, j: int| 0 <= i < j < next.nodes.len() implies (
    #[trigger] next.nodes[i]).id != (#[trigger] next.nodes[j]).id by {
        assert(state.nodes[i].id != state.nodes[j].id);
    }
    assert forall|i: int|
        0 <= i < next.nodes.len() && (#[trigger] next.nodes[i]).window() is Some implies
        next.window_focus_order.contains(next.nodes[i].id) by {
        assert(state.nodes[i].window() is Some);
    }
    assert forall|k: int| 0 <= k < next.window_focus_order.len() implies node_position(
        next.nodes,
        #[trigger] next.window_focus_order[k],
        0,
    ) is Some by {
        let id = next.window_focus_order[k];
        assert(node_position(state.nodes, state.window_focus_order[k], 0) is Some);
        lemma_node_ids_same_position(state.nodes, next.nodes, id, 0);
    }
    assert(is_valid_layout(next));
}

pub proof fn lemma_node_ids_same_position(
    a: Seq<NodeView>,
    b: Seq<NodeView>,
    id: u128,
    from: int,
)
    requires
        0 <= from,
        a.len() == b.len(),
        forall|i: int| 0 <= i < a.len() ==> (#[trigger] a[i]).id == b[i].id,
    ensures
        node_position(a, id, from) == node_position(b, id, from),
    decreases a.len() - from,
{
    if from < a.len() {
        assert(a[from].id == b[from].id);
        lemma_node_ids_same_position(a, b, id, from + 1);
    }
}

} // verus!
