//! What becomes of workspaces whose monitor is removed, or that are merged into others.
use vstd::prelude::*;

use crate::container::{has_nodes, NodeView};
use crate::invariants::{
    is_valid_monitor, lemma_kept, lemma_kept_valid, lemma_located_at, lemma_move_keeps, windows_fit,
};
use crate::merge_spanning_instances::{merged, merged_nodes, nodes_outside, nodes_taken};
use crate::monitor::{lemma_workspace_position, MonitorView};
use crate::packing_laws::lemma_same_workspaces_found;
use crate::remove_monitor::{
    all_rehomed, focused_id, lemma_displayed_keeps, monitor_removed, other_monitor, rehomed,
    shifted, without_monitor, workspace_ids,
};
use crate::rule_laws::lemma_pushed;
use crate::wm_error::WmErrorView;
use crate::wm_event::WmEventView;
use crate::wm_state::{same_layout, same_screen, StateView};
use crate::workspace::WorkspaceView;
use crate::workspace_config::WorkspaceConfigView;
use crate::workspace_map::{
    found, front, lemma_found_at, lemma_found_place, lemma_moved_found, lemma_sort_found,
};

verus! {

/// What moving a workspace from a monitor that is removed changes.
proof fn lemma_rehomed(
    state: StateView,
    configs: Seq<WorkspaceConfigView>,
    place: (int, int),
    target: int,
    focused: Option<u128>,
)
    requires
        state.is_valid(),
        0 <= place.0 < state.monitors.len(),
        0 <= place.1 < state.monitors[place.0].workspaces.len(),
        0 <= target < state.monitors.len(),
        target != place.0,
    ensures
        ({
            let next = rehomed(state, configs, place, target, focused);
            let workspace = state.monitors[place.0].workspaces[place.1];
            let id = workspace.id;
            &&& next.is_valid()
            &&& same_layout(state.monitors, next.monitors)
            &&& next == (StateView { monitors: next.monitors, events: next.events, ..state })
            &&& found(next.monitors, id) == Some(
                (
                    target,
                    WorkspaceView { monitor: Some(state.monitors[target].id), ..workspace },
                ),
            )
            &&& forall|x: u128| x != id ==> #[trigger] found(next.monitors, x) == found(
                state.monitors,
                x,
            )
            &&& next.monitors[place.0].workspaces
                == state.monitors[place.0].workspaces.remove(place.1)
            &&& forall|m: int|
                0 <= m < state.monitors.len() && m != place.0 && m != target
                    ==> #[trigger] next.monitors[m] == state.monitors[m]
            &&& focused == Some(id) && workspace.config.spanning_group is None ==> front(
                next.monitors[target],
            ) == Some(id)
            &&& !(focused == Some(id) && workspace.config.spanning_group is None) && front(
                state.monitors[target],
            ) is Some ==> front(next.monitors[target]) == front(state.monitors[target])
        }),
{
    let workspace = state.monitors[place.0].workspaces[place.1];
    let id = workspace.id;
    let bare = StateView {
        nodes: Seq::empty(),
        window_focus_order: Seq::empty(),
        ..state
    };
    assert(windows_fit(bare, id)) by {
        reveal(windows_fit);
    }
    assert(bare.is_valid());
    lemma_moved_found(bare, place, target);
    let parked = WorkspaceView { monitor: None, ..workspace };
    let moved = state.detach(place).attach(target, parked);
    assert(moved.monitors == crate::repage_spanning_desktops::moved_to_monitor(
        bare,
        place,
        target,
    ).monitors);
    lemma_move_keeps(state, place, target, parked);
    lemma_kept(state, moved, 0);
    lemma_kept_valid(state, moved, 0);
    let is_shown = workspace.config.spanning_group is None && focused == Some(id);
    let shown = if is_shown {
        moved.set_monitor(target, moved.monitors[target].display(id))
    } else {
        moved
    };
    if is_shown {
        lemma_displayed_keeps(moved, target, id);
        lemma_kept(moved, shown, 0);
        lemma_kept_valid(moved, shown, 0);
        let order = moved.monitors[target].focus_order;
        assert(order[order.len() - 1] == id);
        assert(order.contains(id));
        crate::invariants::lemma_moved_to_front(order, id);
    }
    assert forall|x: u128| #[trigger] found(shown.monitors, x) == found(moved.monitors, x) by {
        lemma_same_workspaces_found(moved.monitors, shown.monitors, x, 0);
    }
    lemma_sort_found(shown, target, configs);
    let next = rehomed(state, configs, place, target, focused);
    let sorted = shown.sort(target, configs);
    assert(next.monitors == sorted.monitors);
    assert(next.is_valid());
    assert forall|i: int| #![trigger state.monitors[i]] #![trigger next.monitors[i]]
        0 <= i < state.monitors.len() implies same_screen(state.monitors[i], next.monitors[i]) by {
        assert(same_screen(state.monitors[i], moved.monitors[i]));
        assert(same_screen(moved.monitors[i], shown.monitors[i]));
        assert(same_screen(shown.monitors[i], sorted.monitors[i]));
    }
    assert forall|x: u128| x != id implies #[trigger] found(next.monitors, x) == found(
        state.monitors,
        x,
    ) by {
        assert(found(sorted.monitors, x) == found(shown.monitors, x));
        assert(found(shown.monitors, x) == found(moved.monitors, x));
        assert(found(moved.monitors, x) == found(bare.monitors, x));
    }
    assert(found(sorted.monitors, id) == found(shown.monitors, id));
    if front(state.monitors[target]) is Some {
        assert(front(moved.monitors[target]) == front(state.monitors[target]));
    }
}

/// Whether a workspace is on a monitor.
pub open spec fn is_on(monitors: Seq<MonitorView>, id: u128, monitor: int) -> bool {
    match found(monitors, id) {
        Some((m, _)) => m == monitor,
        None => false,
    }
}

/// Whether a workspace that is attached holds anything or is kept alive.
spec fn is_kept(state: StateView, id: u128) -> bool {
    match found(state.monitors, id) {
        Some((_, workspace)) => has_nodes(state.nodes, id) || workspace.config.keep_alive,
        None => false,
    }
}

/// Whether an identifier is among those from a position on.
spec fn is_from(ids: Seq<u128>, from: int, id: u128) -> bool {
    exists|k: int| from <= k < ids.len() && #[trigger] ids[k] == id
}

/// The state once the first of the given workspaces was moved, if it outlives its monitor.
spec fn first_rehomed(
    state: StateView,
    configs: Seq<WorkspaceConfigView>,
    monitor: int,
    target: int,
    focused: Option<u128>,
    id: u128,
) -> StateView {
    if is_kept(state, id) {
        rehomed(
            state,
            configs,
            (monitor, state.monitors[monitor].position(id)->0),
            target,
            focused,
        )
    } else {
        state
    }
}

/// Whether moving one workspace, if it outlives its monitor, leads from one state to another.
#[verifier::opaque]
spec fn is_step(
    state: StateView,
    next: StateView,
    monitor: int,
    target: int,
    focused: Option<u128>,
    id: u128,
) -> bool {
    let (_, workspace) = found(state.monitors, id)->0;
    &&& next.is_valid()
    &&& same_layout(state.monitors, next.monitors)
    &&& next == (StateView { monitors: next.monitors, events: next.events, ..state })
    &&& found(next.monitors, id) == if is_kept(state, id) {
        Some(
            (target, WorkspaceView { monitor: Some(state.monitors[target].id), ..workspace }),
        )
    } else {
        found(state.monitors, id)
    }
    &&& forall|x: u128| x != id ==> #[trigger] found(next.monitors, x) == found(state.monitors, x)
    &&& is_kept(state, id) && focused == Some(id) && workspace.config.spanning_group is None
        ==> front(next.monitors[target]) == Some(id)
    &&& !(is_kept(state, id) && focused == Some(id) && workspace.config.spanning_group is None)
        && front(state.monitors[target]) is Some ==> front(next.monitors[target]) == front(
        state.monitors[target],
    )
}

proof fn lemma_step(
    state: StateView,
    configs: Seq<WorkspaceConfigView>,
    monitor: int,
    target: int,
    focused: Option<u128>,
    ids: Seq<u128>,
    from: int,
)
    requires
        state.is_valid(),
        0 <= monitor < state.monitors.len(),
        0 <= target < state.monitors.len(),
        target != monitor,
        0 <= from < ids.len(),
        ids.no_duplicates(),
        forall|k: int|
            from <= k < ids.len() ==> is_on(state.monitors, #[trigger] ids[k], monitor),
    ensures
        ({
            let next = first_rehomed(state, configs, monitor, target, focused, ids[from]);
            &&& is_step(state, next, monitor, target, focused, ids[from])
            &&& next.is_valid()
            &&& same_layout(state.monitors, next.monitors)
            &&& all_rehomed(state, configs, monitor, target, focused, ids, from) == all_rehomed(
                next,
                configs,
                monitor,
                target,
                focused,
                ids,
                from + 1,
            )
            &&& forall|k: int|
                from < k < ids.len() ==> is_on(next.monitors, #[trigger] ids[k], monitor)
        }),
{
    let id = ids[from];
    let at = lemma_found_place(state.monitors, id);
    lemma_located_at(state.monitors, monitor, at);
    assert(is_on(state.monitors, ids[from], monitor));
    let next = first_rehomed(state, configs, monitor, target, focused, id);
    if is_kept(state, id) {
        lemma_rehomed(state, configs, (monitor, at), target, focused);
    } else {
        assert(same_layout(state.monitors, state.monitors));
    }
    reveal(is_step);
    assert forall|k: int| from < k < ids.len() implies is_on(
        next.monitors,
        #[trigger] ids[k],
        monitor,
    ) by {
        assert(ids[from] != ids[k]);
        assert(is_on(state.monitors, ids[k], monitor));
    }
}

/// Moving the workspaces that outlive a monitor keeps the state valid.
proof fn lemma_all_rehomed_valid(
    state: StateView,
    configs: Seq<WorkspaceConfigView>,
    monitor: int,
    target: int,
    focused: Option<u128>,
    ids: Seq<u128>,
    from: int,
)
    requires
        state.is_valid(),
        0 <= monitor < state.monitors.len(),
        0 <= target < state.monitors.len(),
        target != monitor,
        0 <= from <= ids.len(),
        ids.no_duplicates(),
        forall|k: int|
            from <= k < ids.len() ==> is_on(state.monitors, #[trigger] ids[k], monitor),
    ensures
        ({
            let next = all_rehomed(state, configs, monitor, target, focused, ids, from);
            &&& next.is_valid()
            &&& same_layout(state.monitors, next.monitors)
            &&& next == (StateView { monitors: next.monitors, events: next.events, ..state })
        }),
    decreases ids.len() - from,
{
    let next = all_rehomed(state, configs, monitor, target, focused, ids, from);
    if from == ids.len() {
        assert(same_layout(state.monitors, state.monitors));
    } else {
        let middle = first_rehomed(state, configs, monitor, target, focused, ids[from]);
        lemma_step(state, configs, monitor, target, focused, ids, from);
        lemma_all_rehomed_valid(middle, configs, monitor, target, focused, ids, from + 1);
        assert(middle == (StateView {
            monitors: middle.monitors,
            events: middle.events,
            ..state
        })) by {
            reveal(is_step);
        }
        assert forall|i: int| #![trigger state.monitors[i]] #![trigger next.monitors[i]]
            0 <= i < state.monitors.len() implies same_screen(
            state.monitors[i],
            next.monitors[i],
        ) by {
            assert(same_screen(state.monitors[i], middle.monitors[i]));
            assert(same_screen(middle.monitors[i], next.monitors[i]));
        }
    }
}

/// Where a workspace is found once those that outlive a monitor were moved.
proof fn lemma_all_rehomed_found(
    state: StateView,
    configs: Seq<WorkspaceConfigView>,
    monitor: int,
    target: int,
    focused: Option<u128>,
    ids: Seq<u128>,
    from: int,
    x: u128,
)
    requires
        state.is_valid(),
        0 <= monitor < state.monitors.len(),
        0 <= target < state.monitors.len(),
        target != monitor,
        0 <= from <= ids.len(),
        ids.no_duplicates(),
        forall|k: int|
            from <= k < ids.len() ==> is_on(state.monitors, #[trigger] ids[k], monitor),
    ensures
        ({
            let next = all_rehomed(state, configs, monitor, target, focused, ids, from);
            let (_, workspace) = found(state.monitors, x)->0;
            found(next.monitors, x) == if is_from(ids, from, x) && is_kept(state, x) {
                Some(
                    (
                        target,
                        WorkspaceView { monitor: Some(state.monitors[target].id), ..workspace },
                    ),
                )
            } else {
                found(state.monitors, x)
            }
        }),
    decreases ids.len() - from,
{
    if from < ids.len() {
        let id = ids[from];
        let middle = first_rehomed(state, configs, monitor, target, focused, id);
        lemma_step(state, configs, monitor, target, focused, ids, from);
        lemma_all_rehomed_found(middle, configs, monitor, target, focused, ids, from + 1, x);
        assert(same_screen(state.monitors[target], middle.monitors[target]));
        reveal(is_step);
        if x == id {
            if is_from(ids, from + 1, x) {
                let k = choose|k: int| from + 1 <= k < ids.len() && #[trigger] ids[k] == x;
                assert(ids[from] != ids[k]);
            }
            assert(ids[from] == x);
            assert(is_from(ids, from, x));
        } else {
            if is_from(ids, from, x) {
                let k = choose|k: int| from <= k < ids.len() && #[trigger] ids[k] == x;
                assert(ids[k] == x && k >= from + 1);
                assert(is_from(ids, from + 1, x));
            }
            if is_from(ids, from + 1, x) {
                let k = choose|k: int| from + 1 <= k < ids.len() && #[trigger] ids[k] == x;
                assert(ids[k] == x);
                assert(is_from(ids, from, x));
            }
            assert(found(middle.monitors, x) == found(state.monitors, x));
        }
    }
}

/// Whether a workspace from a position on is regular, outlives its monitor and has focus.
spec fn is_shown_from(
    state: StateView,
    ids: Seq<u128>,
    from: int,
    focused: Option<u128>,
) -> bool {
    &&& focused is Some
    &&& is_from(ids, from, focused->0)
    &&& is_kept(state, focused->0)
    &&& match found(state.monitors, focused->0) {
        Some((_, workspace)) => workspace.config.spanning_group is None,
        None => false,
    }
}

/// What the other monitor displays once the workspaces that outlive a monitor were moved to it.
proof fn lemma_all_rehomed_front(
    state: StateView,
    configs: Seq<WorkspaceConfigView>,
    monitor: int,
    target: int,
    focused: Option<u128>,
    ids: Seq<u128>,
    from: int,
)
    requires
        state.is_valid(),
        0 <= monitor < state.monitors.len(),
        0 <= target < state.monitors.len(),
        target != monitor,
        0 <= from <= ids.len(),
        ids.no_duplicates(),
        forall|k: int|
            from <= k < ids.len() ==> is_on(state.monitors, #[trigger] ids[k], monitor),
    ensures
        ({
            let next = all_rehomed(state, configs, monitor, target, focused, ids, from);
            &&& is_shown_from(state, ids, from, focused) ==> front(next.monitors[target])
                == focused
            &&& !is_shown_from(state, ids, from, focused) && front(state.monitors[target]) is Some
                ==> front(next.monitors[target]) == front(state.monitors[target])
        }),
    decreases ids.len() - from,
{
    if from < ids.len() {
        let id = ids[from];
        let middle = first_rehomed(state, configs, monitor, target, focused, id);
        lemma_step(state, configs, monitor, target, focused, ids, from);
        lemma_all_rehomed_front(middle, configs, monitor, target, focused, ids, from + 1);
        reveal(is_step);
        if let Some(x) = focused {
            if x == id {
                if is_from(ids, from + 1, x) {
                    let k = choose|k: int| from + 1 <= k < ids.len() && #[trigger] ids[k] == x;
                    assert(ids[from] != ids[k]);
                }
                assert(ids[from] == x);
                assert(is_from(ids, from, x));
            } else {
                if is_from(ids, from, x) {
                    let k = choose|k: int| from <= k < ids.len() && #[trigger] ids[k] == x;
                    assert(ids[k] == x && k >= from + 1);
                    assert(is_from(ids, from + 1, x));
                }
                if is_from(ids, from + 1, x) {
                    let k = choose|k: int| from + 1 <= k < ids.len() && #[trigger] ids[k] == x;
                    assert(ids[k] == x);
                    assert(is_from(ids, from, x));
                }
                assert(found(middle.monitors, x) == found(state.monitors, x));
            }
        }
    }
}

/// Workspaces of a removed monitor that hold anything or are kept alive are moved to the first
/// other monitor, and all its other workspaces are gone. Those of all other monitors stay where
/// they are, and no window is touched.
pub proof fn law_workspaces_of_a_removed_monitor_are_moved(
    state: StateView,
    configs: Seq<WorkspaceConfigView>,
    monitor: int,
    target: int,
    a: int,
    m: int,
    b: int,
)
    requires
        state.is_valid(),
        0 <= monitor < state.monitors.len(),
        0 <= target < state.monitors.len(),
        target == (if monitor == 0 {
            1int
        } else {
            0int
        }),
        monitor_removed(state, configs, monitor).1 is Ok,
    ensures
        ({
            let next = monitor_removed(state, configs, monitor).0;
            let heir = if target > monitor {
                target - 1
            } else {
                target
            };
            &&& next.monitors.len() == state.monitors.len() - 1
            &&& next.nodes == state.nodes
            &&& forall|n: int|
                0 <= n < next.monitors.len() ==> (#[trigger] next.monitors[n]).id
                    == state.monitors[if n < monitor {
                    n
                } else {
                    n + 1
                }].id
            &&& 0 <= a < state.monitors[monitor].workspaces.len() ==> {
                let workspace = state.monitors[monitor].workspaces[a];
                let holds = exists|i: int|
                    0 <= i < state.nodes.len() && (#[trigger] state.nodes[i]).workspace
                        == workspace.id;
                found(next.monitors, workspace.id) == if holds || workspace.config.keep_alive {
                    Some(
                        (
                            heir,
                            WorkspaceView {
                                monitor: Some(state.monitors[target].id),
                                ..workspace
                            },
                        ),
                    )
                } else {
                    None
                }
            }
            &&& 0 <= m < state.monitors.len() && m != monitor && 0 <= b
                < state.monitors[m].workspaces.len() ==> found(
                next.monitors,
                state.monitors[m].workspaces[b].id,
            ) == Some(
                (
                    if m > monitor {
                        m - 1
                    } else {
                        m
                    },
                    state.monitors[m].workspaces[b],
                ),
            )
        }),
{
    let removed = state.monitors[monitor];
    let ids = workspace_ids(removed);
    let focused = focused_id(state);
    lemma_other_monitor(state, monitor, target, 0);
    lemma_workspace_ids(state, monitor);
    lemma_all_rehomed_valid(state, configs, monitor, target, focused, ids, 0);
    let cleared = all_rehomed(state, configs, monitor, target, focused, ids, 0);
    let detached = without_monitor(cleared, monitor);
    let next = monitor_removed(state, configs, monitor).0;
    lemma_removed_found(state, configs, monitor, target);
    if 0 <= a < removed.workspaces.len() {
        let x = removed.workspaces[a].id;
        lemma_found_at(state.monitors, monitor, a);
        assert(ids[a] == x);
        lemma_all_rehomed_found(state, configs, monitor, target, focused, ids, 0, x);
        lemma_found_without(cleared, monitor, x);
        assert(found(next.monitors, x) == found(detached.monitors, x));
    }
    if 0 <= m < state.monitors.len() && m != monitor && 0 <= b
        < state.monitors[m].workspaces.len() {
        let x = state.monitors[m].workspaces[b].id;
        lemma_found_at(state.monitors, m, b);
        if is_from(ids, 0, x) {
            let k = choose|k: int| 0 <= k < ids.len() && #[trigger] ids[k] == x;
            assert(state.monitors[monitor].workspaces[k].id == state.monitors[m].workspaces[b].id);
        }
        lemma_all_rehomed_found(state, configs, monitor, target, focused, ids, 0, x);
        lemma_found_without(cleared, monitor, x);
        assert(found(next.monitors, x) == found(detached.monitors, x));
    }
}

/// Announcing the removal and moving focus changes no workspace.
proof fn lemma_removed_found(
    state: StateView,
    configs: Seq<WorkspaceConfigView>,
    monitor: int,
    target: int,
)
    requires
        state.is_valid(),
        0 <= monitor < state.monitors.len(),
        0 <= target < state.monitors.len(),
        target != monitor,
        other_monitor(state.monitors, state.monitors[monitor].id, 0) == Some(target),
        same_layout(
            state.monitors,
            all_rehomed(
                state,
                configs,
                monitor,
                target,
                focused_id(state),
                workspace_ids(state.monitors[monitor]),
                0,
            ).monitors,
        ),
        all_rehomed(
            state,
            configs,
            monitor,
            target,
            focused_id(state),
            workspace_ids(state.monitors[monitor]),
            0,
        ).nodes == state.nodes,
        monitor_removed(state, configs, monitor).1 is Ok,
    ensures
        ({
            let cleared = all_rehomed(
                state,
                configs,
                monitor,
                target,
                focused_id(state),
                workspace_ids(state.monitors[monitor]),
                0,
            );
            let detached = without_monitor(cleared, monitor);
            let next = monitor_removed(state, configs, monitor).0;
            &&& next.monitors.len() == state.monitors.len() - 1
            &&& next.nodes == state.nodes
            &&& forall|x: u128| #[trigger]
                found(next.monitors, x) == found(detached.monitors, x)
            &&& forall|n: int|
                0 <= n < next.monitors.len() ==> (#[trigger] next.monitors[n]).id
                    == state.monitors[if n < monitor {
                    n
                } else {
                    n + 1
                }].id
        }),
{
    let cleared = all_rehomed(
        state,
        configs,
        monitor,
        target,
        focused_id(state),
        workspace_ids(state.monitors[monitor]),
        0,
    );
    let detached = without_monitor(cleared, monitor);
    let next = monitor_removed(state, configs, monitor).0;
    lemma_focus_displayed(detached, shifted(monitor, target));
    assert forall|n: int| 0 <= n < next.monitors.len() implies (#[trigger] next.monitors[n]).id
        == state.monitors[if n < monitor {
        n
    } else {
        n + 1
    }].id by {
        let o = if n < monitor {
            n
        } else {
            n + 1
        };
        assert(detached.monitors[n] == cleared.monitors[o]);
        assert(next.monitors[n].id == detached.monitors[n].id);
        assert(same_screen(state.monitors[o], cleared.monitors[o]));
    }
    assert forall|x: u128| #[trigger] found(next.monitors, x) == found(detached.monitors, x) by {
        lemma_same_workspaces_found(detached.monitors, next.monitors, x, 0);
    }
}

proof fn lemma_other_monitor(state: StateView, monitor: int, target: int, from: int)
    requires
        state.is_valid(),
        0 <= monitor < state.monitors.len(),
        0 <= from <= target < state.monitors.len(),
        target == (if monitor == 0 {
            1int
        } else {
            0int
        }),
    ensures
        other_monitor(state.monitors, state.monitors[monitor].id, from) == Some(target),
    decreases target - from,
{
    if from < target {
        assert(from == monitor);
        lemma_other_monitor(state, monitor, target, from + 1);
    } else if monitor < target {
        assert(state.monitors[monitor].id != state.monitors[target].id);
    } else {
        assert(state.monitors[target].id != state.monitors[monitor].id);
    }
}

proof fn lemma_workspace_ids(state: StateView, monitor: int)
    requires
        state.is_valid(),
        0 <= monitor < state.monitors.len(),
    ensures
        workspace_ids(state.monitors[monitor]).no_duplicates(),
        forall|k: int|
            0 <= k < workspace_ids(state.monitors[monitor]).len() ==> is_on(
                state.monitors,
                #[trigger] workspace_ids(state.monitors[monitor])[k],
                monitor,
            ),
{
    let ids = workspace_ids(state.monitors[monitor]);
    assert forall|i: int, j: int|
        0 <= i < ids.len() && 0 <= j < ids.len() && i != j implies ids[i] != ids[j] by {
        if state.monitors[monitor].workspaces[i].id == state.monitors[monitor].workspaces[j].id {
            assert(i == j);
        }
    }
    assert forall|k: int| 0 <= k < ids.len() implies is_on(
        state.monitors,
        #[trigger] ids[k],
        monitor,
    ) by {
        lemma_found_at(state.monitors, monitor, k);
    }
}

/// Focusing what a monitor displays moves nothing.
proof fn lemma_focus_displayed(state: StateView, monitor: int)
    requires
        0 <= monitor < state.monitors.len(),
    ensures
        ({
            let next = crate::remove_monitor::displayed_focused(state, monitor).0;
            &&& next.nodes == state.nodes
            &&& next.monitors.len() == state.monitors.len()
            &&& forall|m: int|
                0 <= m < state.monitors.len() ==> (#[trigger] next.monitors[m]).workspaces
                    == state.monitors[m].workspaces && next.monitors[m].id == state.monitors[m].id
        }),
{
    if let Some(at) = state.monitors[monitor].displayed() {
        let container = state.container_to_focus(state.monitors[monitor].workspaces[at].id);
        crate::invariants::lemma_focus_moves_nothing(state, container);
        crate::invariants::lemma_focus_keeps(state, container);
        lemma_kept(state, state.focus(container), 0);
        assert forall|m: int| 0 <= m < state.monitors.len() implies (
        #[trigger] state.focus(container).monitors[m]).id == state.monitors[m].id by {
            assert(same_screen(state.monitors[m], state.focus(container).monitors[m]));
        }
    }
}

/// Where a workspace is found once a monitor is gone.
proof fn lemma_found_without(state: StateView, monitor: int, x: u128)
    requires
        state.is_valid(),
        0 <= monitor < state.monitors.len(),
    ensures
        found(without_monitor(state, monitor).monitors, x) == match found(state.monitors, x) {
            Some((m, workspace)) => if m == monitor {
                None
            } else if m > monitor {
                Some((m - 1, workspace))
            } else {
                Some((m, workspace))
            },
            None => None,
        },
{
    let next = without_monitor(state, monitor).monitors;
    let old_at = |m: int| if m < monitor { m } else { m + 1 };
    assert forall|m: int| 0 <= m < next.len() implies #[trigger] next[m]
        == state.monitors[old_at(m)] by {}
    assert forall|m: int, a: int, n: int, b: int|
        0 <= m < next.len() && 0 <= a < next[m].workspaces.len() && 0 <= n < next.len() && 0 <= b
            < next[n].workspaces.len() && (#[trigger] next[m].workspaces[a]).id == (
        #[trigger] next[n].workspaces[b]).id implies m == n && a == b by {
        assert(state.monitors[old_at(m)].workspaces[a].id
            == state.monitors[old_at(n)].workspaces[b].id);
    }
    if found(next, x) is Some {
        let a = lemma_found_place(next, x);
        let (m, _) = found(next, x)->0;
        lemma_found_at(state.monitors, old_at(m), a);
    }
    if found(state.monitors, x) is Some {
        let a = lemma_found_place(state.monitors, x);
        let (m, _) = found(state.monitors, x)->0;
        if m < monitor {
            assert(next[m] == state.monitors[m]);
            lemma_found_at(next, m, a);
        } else if m > monitor {
            assert(next[m - 1] == state.monitors[m]);
            lemma_found_at(next, m - 1, a);
        }
    }
}

/// If a regular workspace of the removed monitor had focus and outlives it, the monitor that takes
/// it displays it. Otherwise that monitor displays what it did. If the removed monitor had focus,
/// the other one gets it.
pub proof fn law_focused_workspace_survives_its_monitor(
    state: StateView,
    configs: Seq<WorkspaceConfigView>,
    monitor: int,
    target: int,
    a: int,
)
    requires
        state.is_valid(),
        0 <= monitor < state.monitors.len(),
        0 <= target < state.monitors.len(),
        target == (if monitor == 0 {
            1int
        } else {
            0int
        }),
        state.focused_workspace() == Some((monitor, a)),
        monitor_removed(state, configs, monitor).1 is Ok,
    ensures
        ({
            let next = monitor_removed(state, configs, monitor).0;
            let workspace = state.monitors[monitor].workspaces[a];
            let heir = if target > monitor {
                target - 1
            } else {
                target
            };
            let holds = exists|i: int|
                0 <= i < state.nodes.len() && (#[trigger] state.nodes[i]).workspace
                    == workspace.id;
            let is_shown = workspace.config.spanning_group is None && (holds
                || workspace.config.keep_alive);
            &&& is_shown ==> next.monitors[heir].focus_order[0] == workspace.id
            &&& !is_shown && state.monitors[target].focus_order.len() > 0
                ==> next.monitors[heir].focus_order[0] == state.monitors[target].focus_order[0]
            &&& next.focus_order[0] == state.monitors[target].id
            &&& next.pending_sync.needs_focus_update
        }),
{
    let removed = state.monitors[monitor];
    let ids = workspace_ids(removed);
    let focused = focused_id(state);
    crate::wm_state::lemma_monitor_position(state.monitors, state.focus_order[0], 0);
    lemma_workspace_position(removed.workspaces, removed.focus_order[0], 0);
    let workspace = removed.workspaces[a];
    lemma_other_monitor(state, monitor, target, 0);
    lemma_workspace_ids(state, monitor);
    lemma_all_rehomed_valid(state, configs, monitor, target, focused, ids, 0);
    lemma_all_rehomed_front(state, configs, monitor, target, focused, ids, 0);
    let cleared = all_rehomed(state, configs, monitor, target, focused, ids, 0);
    let detached = without_monitor(cleared, monitor);
    let heir = shifted(monitor, target);
    assert(ids[a] == workspace.id);
    lemma_found_at(state.monitors, monitor, a);
    assert(detached.monitors[heir] == cleared.monitors[target]);
    assert(same_screen(state.monitors[target], cleared.monitors[target]));
    let shown = detached.monitors[heir];
    let at = shown.displayed()->0;
    lemma_workspace_position(shown.workspaces, shown.focus_order[0], 0);
    let id = shown.workspaces[at].id;
    assert(id == shown.focus_order[0]);
    let container = detached.container_to_focus(id);
    lemma_detached_focus(cleared, monitor, heir);
}

proof fn lemma_without_keeps(ids: Seq<u128>, id: u128, x: u128)
    requires
        ids.contains(x),
        x != id,
    ensures
        crate::focus_order::without(ids, id).contains(x),
{
    crate::focus_order::lemma_id_position(ids, id, 0);
    if let Some(at) = crate::focus_order::id_position(ids, id, 0) {
        let k = choose|k: int| 0 <= k < ids.len() && ids[k] == x;
        assert(ids.remove(at)[if k < at {
            k
        } else {
            k - 1
        }] == x);
    }
}

/// Focusing what the remaining monitor displays gives it focus.
proof fn lemma_detached_focus(state: StateView, monitor: int, heir: int)
    requires
        state.is_valid(),
        0 <= monitor < state.monitors.len(),
        0 <= heir < state.monitors.len() - 1,
        crate::remove_monitor::displayed_focused(
            without_monitor(state, monitor),
            heir,
        ).1 is Ok,
    ensures
        ({
            let before = without_monitor(state, monitor);
            let next = crate::remove_monitor::displayed_focused(before, heir).0;
            &&& next.monitors.len() == before.monitors.len()
            &&& next.monitors[heir].focus_order[0] == before.monitors[heir].focus_order[0]
            &&& next.focus_order.len() > 0
            &&& next.focus_order[0] == before.monitors[heir].id
            &&& next.pending_sync.needs_focus_update
        }),
{
    let before = without_monitor(state, monitor);
    let old_at = |m: int| if m < monitor { m } else { m + 1 };
    assert forall|m: int| 0 <= m < before.monitors.len() implies #[trigger] before.monitors[m]
        == state.monitors[old_at(m)] by {}
    let shown = before.monitors[heir];
    let at = shown.displayed()->0;
    assert(is_valid_monitor(state.monitors[old_at(heir)]));
    lemma_workspace_position(shown.workspaces, shown.focus_order[0], 0);
    let id = shown.workspaces[at].id;
    let container = before.container_to_focus(id);
    crate::invariants::lemma_recent_window(before.window_focus_order, before.nodes, id, 0);
    assert forall|m: int, a: int, n: int, b: int|
        0 <= m < before.monitors.len() && 0 <= a < before.monitors[m].workspaces.len() && 0 <= n
            < before.monitors.len() && 0 <= b < before.monitors[n].workspaces.len() && (
        #[trigger] before.monitors[m].workspaces[a]).id == (
        #[trigger] before.monitors[n].workspaces[b]).id implies m == n && a == b by {
        assert(state.monitors[old_at(m)].workspaces[a].id
            == state.monitors[old_at(n)].workspaces[b].id);
    }
    lemma_located_at(before.monitors, heir, at);
    crate::invariants::lemma_moved_to_front(shown.focus_order, id);
    let monitor_id = shown.id;
    assert(state.focus_order.contains(monitor_id));
    if old_at(heir) < monitor {
        assert(state.monitors[old_at(heir)].id != state.monitors[monitor].id);
    } else {
        assert(state.monitors[monitor].id != state.monitors[old_at(heir)].id);
    }
    lemma_without_keeps(state.focus_order, state.monitors[monitor].id, monitor_id);
    crate::invariants::lemma_moved_to_front(before.focus_order, monitor_id);
}

/// The last monitor can't be removed, and a monitor that is removed is announced.
pub proof fn law_last_monitor_stays(
    state: StateView,
    configs: Seq<WorkspaceConfigView>,
    monitor: int,
)
    requires
        0 <= monitor < state.monitors.len(),
    ensures
        state.monitors.len() == 1 ==> monitor_removed(state, configs, monitor) == (
            state,
            Err::<(), WmErrorView>(WmErrorView::NoMonitorToMoveTo),
        ),
        monitor_removed(state, configs, monitor).1 is Ok ==> {
            let events = monitor_removed(state, configs, monitor).0.events;
            events.len() > 0 && events.last() == (WmEventView::MonitorRemoved {
                removed_id: state.monitors[monitor].id,
                removed_device_name: state.monitors[monitor].device_name,
            })
        },
{
    if state.monitors.len() == 1 {
        assert(other_monitor(state.monitors, state.monitors[monitor].id, 1) is None);
    }
}

/// Merging an instance into another one moves its windows and containers behind those that stay
/// where they are, in their order: `origins` holds their former positions.
pub proof fn law_merged_nodes_come_last_in_order(
    nodes: Seq<NodeView>,
    source: u128,
    target: u128,
) -> (origins: Seq<int>)
    ensures
        origins.len() == merged_nodes(nodes, source, target).len(),
        forall|k: int|
            0 <= k < origins.len() ==> 0 <= #[trigger] origins[k] < nodes.len() && merged_nodes(
                nodes,
                source,
                target,
            )[k] == if nodes[origins[k]].workspace == source {
                NodeView { workspace: target, ..nodes[origins[k]] }
            } else {
                nodes[origins[k]]
            },
        forall|i: int| 0 <= i < nodes.len() ==> #[trigger] origins.contains(i),
        forall|k: int, l: int|
            0 <= k < l < origins.len() ==> {
                let (i, j) = (#[trigger] origins[k], #[trigger] origins[l]);
                if (nodes[i].workspace == source) == (nodes[j].workspace == source) {
                    i < j
                } else {
                    nodes[i].workspace != source
                }
            },
{
    let count = nodes.len();
    let a = lemma_outside(nodes, source, count);
    let b = lemma_taken(nodes, source, target, count);
    let origins = a + b;
    assert forall|i: int| 0 <= i < nodes.len() implies #[trigger] origins.contains(i) by {
        if nodes[i].workspace == source {
            assert(b.contains(i));
            let k = choose|k: int| 0 <= k < b.len() && b[k] == i;
            assert(origins[a.len() + k] == i);
        } else {
            assert(a.contains(i));
            let k = choose|k: int| 0 <= k < a.len() && a[k] == i;
            assert(origins[k] == i);
        }
    }
    assert forall|k: int| 0 <= k < origins.len() implies 0 <= #[trigger] origins[k] < nodes.len()
        && merged_nodes(nodes, source, target)[k] == if nodes[origins[k]].workspace == source {
        NodeView { workspace: target, ..nodes[origins[k]] }
    } else {
        nodes[origins[k]]
    } by {
        if k < a.len() {
            assert(origins[k] == a[k]);
            assert(a.contains(a[k]));
        } else {
            assert(origins[k] == b[k - a.len()]);
            assert(b.contains(b[k - a.len()]));
        }
    }
    assert forall|k: int, l: int| 0 <= k < l < origins.len() implies {
        let (i, j) = (#[trigger] origins[k], #[trigger] origins[l]);
        if (nodes[i].workspace == source) == (nodes[j].workspace == source) {
            i < j
        } else {
            nodes[i].workspace != source
        }
    } by {
        if l < a.len() {
            assert(a[k] < a[l] && a.contains(a[k]) && a.contains(a[l]));
        } else if k < a.len() {
            assert(a.contains(a[k]) && b.contains(b[l - a.len()]));
        } else {
            assert(b[k - a.len()] < b[l - a.len()]);
            assert(b.contains(b[k - a.len()]) && b.contains(b[l - a.len()]));
        }
    }
    origins
}

proof fn lemma_outside(nodes: Seq<NodeView>, source: u128, count: nat) -> (origins: Seq<int>)
    requires
        count <= nodes.len(),
    ensures
        origins.len() == nodes_outside(nodes, source, count).len(),
        forall|k: int, l: int|
            0 <= k < l < origins.len() ==> (#[trigger] origins[k]) < (#[trigger] origins[l]),
        forall|k: int|
            0 <= k < origins.len() ==> 0 <= #[trigger] origins[k] < count && nodes_outside(
                nodes,
                source,
                count,
            )[k] == nodes[origins[k]],
        forall|i: int|
            0 <= i < count ==> (#[trigger] origins.contains(i) <==> nodes[i].workspace != source),
    decreases count,
{
    if count == 0 {
        Seq::empty()
    } else {
        let last = count - 1;
        let rest = lemma_outside(nodes, source, last as nat);
        if nodes[last].workspace == source {
            assert(!rest.contains(last));
            rest
        } else {
            lemma_pushed(rest, last);
            rest.push(last)
        }
    }
}

proof fn lemma_taken(
    nodes: Seq<NodeView>,
    source: u128,
    target: u128,
    count: nat,
) -> (origins: Seq<int>)
    requires
        count <= nodes.len(),
    ensures
        origins.len() == nodes_taken(nodes, source, target, count).len(),
        forall|k: int, l: int|
            0 <= k < l < origins.len() ==> (#[trigger] origins[k]) < (#[trigger] origins[l]),
        forall|k: int|
            0 <= k < origins.len() ==> 0 <= #[trigger] origins[k] < count && nodes_taken(
                nodes,
                source,
                target,
                count,
            )[k] == (NodeView { workspace: target, ..nodes[origins[k]] }),
        forall|i: int|
            0 <= i < count ==> (#[trigger] origins.contains(i) <==> nodes[i].workspace == source),
    decreases count,
{
    if count == 0 {
        Seq::empty()
    } else {
        let last = count - 1;
        let rest = lemma_taken(nodes, source, target, last as nat);
        if nodes[last].workspace == source {
            lemma_pushed(rest, last);
            rest.push(last)
        } else {
            assert(!rest.contains(last));
            rest
        }
    }
}

/// Merging removes the instance that is merged, and changes no other workspace, nor which windows
/// were focused most recently.
pub proof fn law_merged_instance_is_removed(
    state: StateView,
    m: int,
    a: int,
    target: u128,
)
    requires
        state.is_valid(),
        0 <= m < state.monitors.len(),
        0 <= a < state.monitors[m].workspaces.len(),
    ensures
        ({
            let workspace = state.monitors[m].workspaces[a];
            let (next, result) = merged(state, workspace.id, target);
            let (removed, _) = state.deactivate(workspace.id);
            &&& result is Ok
            &&& next == (StateView { nodes: next.nodes, ..removed })
            &&& next.monitors[m].workspaces == state.monitors[m].workspaces.remove(a)
            &&& next.window_focus_order == state.window_focus_order
            &&& next.nodes == merged_nodes(state.nodes, workspace.id, target)
        }),
{
    lemma_located_at(state.monitors, m, a);
}

} // verus!
