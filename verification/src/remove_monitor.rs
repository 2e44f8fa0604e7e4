//! Removing monitors.
use vstd::prelude::*;

use crate::focus_order::{forget, without};
use crate::invariants::{
    is_valid_layout, is_valid_monitor, keeps, keeps_occupied, lemma_focus_keeps, lemma_is_located,
    lemma_keeps_itself, lemma_keeps_transitive, lemma_kept, lemma_kept_valid, lemma_move_keeps,
    lemma_sort_keeps, lemma_unrelated_keeps,
};
use crate::monitor::{position_view, Monitor, MonitorView};
use crate::repage_spanning_desktops::{has_place, lemma_has_place};
use crate::user_config::UserConfig;
use crate::wm_error::{outcome, WmError, WmErrorView};
use crate::wm_event::{WmEvent, WmEventView};
use crate::wm_state::{lemma_located, shows, StateView, WmState};
use crate::workspace::WorkspaceView;
use crate::workspace_config::WorkspaceConfigView;

verus! {

/// First monitor from `from` on with another identifier.
pub open spec fn other_monitor(monitors: Seq<MonitorView>, id: u128, from: int) -> Option<int>
    decreases monitors.len() - from,
{
    if from < 0 || from >= monitors.len() {
        None
    } else if monitors[from].id != id {
        Some(from)
    } else {
        other_monitor(monitors, id, from + 1)
    }
}

/// The state with a workspace moved to the back of another monitor. A focused regular workspace
/// is displayed there; instances of spanning workspaces are parked hidden.
pub open spec fn rehomed(
    state: StateView,
    configs: Seq<WorkspaceConfigView>,
    place: (int, int),
    target: int,
    focused: Option<u128>,
) -> StateView {
    let workspace = state.workspace(place);
    let moved = state.detach(place).attach(target, WorkspaceView { monitor: None, ..workspace });
    let is_regular = workspace.config.spanning_group is None;
    let shown = if is_regular && focused == Some(workspace.id) {
        moved.set_monitor(target, moved.monitors[target].display(workspace.id))
    } else {
        moved
    };
    shown.sort(target, configs).emit(
        WmEventView::WorkspaceUpdated { updated_workspace: workspace.id },
    )
}

/// Whether a workspace outlives its monitor.
pub open spec fn outlives_monitor(state: StateView, workspace: WorkspaceView) -> bool {
    state.has_children(workspace.id) || workspace.config.keep_alive
}

/// The state with those of the given workspaces of a monitor, from `from` on, that outlive it
/// moved to another monitor.
pub open spec fn all_rehomed(
    state: StateView,
    configs: Seq<WorkspaceConfigView>,
    monitor: int,
    target: int,
    focused: Option<u128>,
    ids: Seq<u128>,
    from: int,
) -> StateView
    decreases ids.len() - from,
{
    if from < 0 || from >= ids.len() {
        state
    } else {
        match state.monitors[monitor].position(ids[from]) {
            Some(at) => if outlives_monitor(state, state.workspace((monitor, at))) {
                all_rehomed(
                    rehomed(state, configs, (monitor, at), target, focused),
                    configs,
                    monitor,
                    target,
                    focused,
                    ids,
                    from + 1,
                )
            } else {
                all_rehomed(state, configs, monitor, target, focused, ids, from + 1)
            },
            None => all_rehomed(state, configs, monitor, target, focused, ids, from + 1),
        }
    }
}

/// Identifier of the focused workspace.
pub open spec fn focused_id(state: StateView) -> Option<u128> {
    match state.focused_workspace() {
        Some(place) => Some(state.workspace(place).id),
        None => None,
    }
}

pub open spec fn workspace_ids(monitor: MonitorView) -> Seq<u128> {
    monitor.workspaces.map_values(|workspace: WorkspaceView| workspace.id)
}

/// The state without a monitor, and everything that is still on it.
pub open spec fn without_monitor(state: StateView, monitor: int) -> StateView {
    StateView {
        monitors: state.monitors.remove(monitor),
        focus_order: without(state.focus_order, state.monitors[monitor].id),
        ..state
    }
}

/// Position of another monitor once a monitor is removed.
pub open spec fn shifted(monitor: int, target: int) -> int {
    if target > monitor {
        target - 1
    } else {
        target
    }
}

/// The state with a monitor removed and its workspaces moved to another one.
pub open spec fn monitor_removed(
    state: StateView,
    configs: Seq<WorkspaceConfigView>,
    monitor: int,
) -> (StateView, Result<(), WmErrorView>) {
    let removed = state.monitors[monitor];
    let was_focused = match state.focused_monitor() {
        Some(focused) => state.monitors[focused].id == removed.id,
        None => false,
    };
    match other_monitor(state.monitors, removed.id, 0) {
        None => (state, Err(WmErrorView::NoMonitorToMoveTo)),
        Some(target) => {
            let cleared = all_rehomed(
                state,
                configs,
                monitor,
                target,
                focused_id(state),
                workspace_ids(removed),
                0,
            );
            let detached = without_monitor(cleared, monitor);
            let event = WmEventView::MonitorRemoved {
                removed_id: removed.id,
                removed_device_name: removed.device_name,
            };
            if was_focused {
                let (focused, result) = displayed_focused(detached, shifted(monitor, target));
                match result {
                    Ok(_) => (focused.emit(event), Ok(())),
                    Err(error) => (focused, Err(error)),
                }
            } else {
                (detached.emit(event), Ok(()))
            }
        },
    }
}

/// Moves a workspace to the back of another monitor.
fn rehome_workspace(
    monitor: usize,
    at: usize,
    target: usize,
    focused: Option<u128>,
    state: &mut WmState,
    config: &UserConfig,
)
    requires
        has_place(old(state)@, monitor, at),
        target < old(state).monitors@.len(),
    ensures
        final(state)@ == rehomed(
            old(state)@,
            config.value@.workspaces,
            (monitor as int, at as int),
            target as int,
            focused,
        ),
        keeps(old(state)@, final(state)@, 0),
{
    let ghost before = state@;
    let ghost place = (monitor as int, at as int);
    let ghost configs = config.value@.workspaces;
    proof {
        lemma_has_place(*state, monitor, at);
    }
    let is_regular = state.monitors[monitor].workspaces[at].config.spanning_group.is_none();
    let is_focused = match focused {
        Some(id) => id == state.monitors[monitor].workspaces[at].id,
        None => false,
    };
    let workspace = state.detach_workspace(monitor, at);
    let id = workspace.id;
    let ghost parked = workspace@;
    state.attach_workspace(target, workspace);
    let ghost moved = state@;
    proof {
        lemma_move_keeps(before, place, target as int, parked);
        assert(moved.monitors[target as int] == state.monitors@[target as int]@);
        lemma_displayed_keeps(moved, target as int, id);
    }
    if is_regular && is_focused {
        state.monitors[target].display(id);
        assert(state@.monitors =~= moved.set_monitor(
            target as int,
            moved.monitors[target as int].display(id),
        ).monitors);
        proof {
            lemma_keeps_transitive(before, moved, state@, 0, 0);
        }
    }
    let ghost shown = state@;
    state.sort_workspaces(target, config);
    let ghost sorted = state@;
    state.emit_event(WmEvent::WorkspaceUpdated { updated_workspace: id });
    proof {
        lemma_sort_keeps(shown, target as int, configs);
        lemma_keeps_transitive(before, shown, sorted, 0, 0);
        lemma_unrelated_keeps(sorted, state@);
        lemma_keeps_transitive(before, sorted, state@, 0, 0);
    }
}

fn ids_of(state: &WmState, monitor: usize) -> (ids: Vec<u128>)
    requires
        monitor < state.monitors@.len(),
    ensures
        ids@ == workspace_ids(state@.monitors[monitor as int]),
{
    let workspaces = &state.monitors[monitor].workspaces;
    let ghost expected = workspace_ids(state@.monitors[monitor as int]);
    assert(state@.monitors[monitor as int] == state.monitors@[monitor as int]@);
    let mut ids: Vec<u128> = Vec::new();
    let mut i: usize = 0;
    while i < workspaces.len()
        invariant
            i <= workspaces@.len(),
            ids@.len() == i,
            expected.len() == workspaces@.len(),
            forall|j: int| 0 <= j < workspaces@.len() ==> expected[j] == (#[trigger] workspaces@[j]).id,
            forall|j: int| 0 <= j < i ==> #[trigger] ids@[j] == expected[j],
        decreases workspaces@.len() - i,
    {
        ids.push(workspaces[i].id);
        i = i + 1;
    }
    assert(ids@ =~= expected);
    ids
}

/// Moves the workspaces that outlive a monitor to another one. Empty workspaces stay behind.
fn rehome_workspaces(monitor: usize, target: usize, state: &mut WmState, config: &UserConfig)
    requires
        monitor < old(state).monitors@.len(),
        target < old(state).monitors@.len(),
        target != monitor,
    ensures
        final(state)@ == all_rehomed(
            old(state)@,
            config.value@.workspaces,
            monitor as int,
            target as int,
            focused_id(old(state)@),
            workspace_ids(old(state)@.monitors[monitor as int]),
            0,
        ),
        keeps(old(state)@, final(state)@, 0),
        old(state)@.is_valid() ==> is_vacated(final(state)@, monitor as int),
        final(state)@.nodes == old(state)@.nodes,
{
    let ghost before = state@;
    let ghost configs = config.value@.workspaces;
    let ids = ids_of(state, monitor);
    let focused = match state.focused_workspace() {
        Some((focused_monitor, at)) => {
            assert(state@.workspace((focused_monitor as int, at as int))
                == state.monitors@[focused_monitor as int].workspaces@[at as int]@);
            Some(state.monitors[focused_monitor].workspaces[at].id)
        },
        None => None,
    };
    proof {
        lemma_keeps_itself(before);
        assert forall|a: int|
            0 <= a < before.monitors[monitor as int].workspaces.len() implies ids@.contains(
            (#[trigger] before.monitors[monitor as int].workspaces[a]).id,
        ) by {
            assert(ids@[a] == before.monitors[monitor as int].workspaces[a].id);
        }
    }
    let mut i: usize = 0;
    while i < ids.len()
        invariant
            i <= ids@.len(),
            before == old(state)@,
            configs == config.value@.workspaces,
            monitor < state.monitors@.len(),
            target < state.monitors@.len(),
            keeps(before, state@, 0),
            all_rehomed(
                before,
                configs,
                monitor as int,
                target as int,
                focused,
                ids@,
                0,
            ) == all_rehomed(
                state@,
                configs,
                monitor as int,
                target as int,
                focused,
                ids@,
                i as int,
            ),
            target != monitor,
            state@.nodes == before.nodes,
            forall|a: int|
                0 <= a < state@.monitors[monitor as int].workspaces.len() ==> ids@.contains(
                    (#[trigger] state@.monitors[monitor as int].workspaces[a]).id,
                ),
            before.is_valid() ==> forall|j: int|
                0 <= j < i && before.has_children(#[trigger] ids@[j])
                    ==> state@.monitors[monitor as int].position(ids@[j]) is None,
        decreases ids@.len() - i,
    {
        let ghost current = state@;
        assert(state@.monitors[monitor as int] == state.monitors@[monitor as int]@);
        if let Some(at) = state.monitors[monitor].find_workspace(ids[i]) {
            proof {
                lemma_has_place(*state, monitor, at);
            }
            let workspace = &state.monitors[monitor].workspaces[at];
            if state.has_children(workspace.id) || workspace.config.keep_alive {
                rehome_workspace(monitor, at, target, focused, state, config);
                proof {
                    lemma_kept(current, state@, 0);
                    lemma_keeps_transitive(before, current, state@, 0, 0);
                    if before.is_valid() {
                        lemma_kept_valid(before, current, 0);
                    }
                    lemma_rehomed_leaves(
                        current,
                        configs,
                        (monitor as int, at as int),
                        target as int,
                        focused,
                    );
                }
            }
        }
        i = i + 1;
    }
    proof {
        if before.is_valid() {
            lemma_kept_valid(before, state@, 0);
            assert forall|a: int|
                0 <= a < state@.monitors[monitor as int].workspaces.len() implies
                !state@.has_children(
                (#[trigger] state@.monitors[monitor as int].workspaces[a]).id,
            ) by {
                let id = state@.monitors[monitor as int].workspaces[a].id;
                assert(ids@.contains(id));
                crate::invariants::lemma_located_at(state@.monitors, monitor as int, a);
            }
        }
    }
}

/// Whether no workspace on a monitor holds anything.
pub open spec fn is_vacated(state: StateView, monitor: int) -> bool {
    forall|a: int|
        0 <= a < state.monitors[monitor].workspaces.len() ==> !state.has_children(
            (#[trigger] state.monitors[monitor].workspaces[a]).id,
        )
}

/// A workspace that was moved to another monitor isn't on its former one any more, and nothing
/// else gets there.
proof fn lemma_rehomed_leaves(
    state: StateView,
    configs: Seq<WorkspaceConfigView>,
    place: (int, int),
    target: int,
    focused: Option<u128>,
)
    requires
        0 <= place.0 < state.monitors.len(),
        0 <= place.1 < state.monitors[place.0].workspaces.len(),
        0 <= target < state.monitors.len(),
        target != place.0,
    ensures
        rehomed(state, configs, place, target, focused).nodes == state.nodes,
        forall|a: int|
            0 <= a < rehomed(state, configs, place, target, focused).monitors[place.0].workspaces.len()
                ==> state.monitors[place.0].workspaces.contains(
                #[trigger] rehomed(state, configs, place, target, focused).monitors[place.0].workspaces[a],
            ),
        forall|id: u128|
            state.monitors[place.0].position(id) is None ==> #[trigger] rehomed(
                state,
                configs,
                place,
                target,
                focused,
            ).monitors[place.0].position(id) is None,
        state.is_valid() ==> rehomed(state, configs, place, target, focused).monitors[place.0].position(
            state.workspace(place).id,
        ) is None,
{
    let next = rehomed(state, configs, place, target, focused);
    let (m, at) = place;
    let old = state.monitors[m].workspaces;
    let rest = next.monitors[m].workspaces;
    assert(next.monitors[m] == state.monitors[m].detach(at));
    assert(rest == old.remove(at));
    assert forall|a: int| 0 <= a < rest.len() implies old.contains(#[trigger] rest[a]) by {
        let b = if a < at {
            a
        } else {
            a + 1
        };
        assert(old[b] == rest[a]);
    }
    assert forall|id: u128| state.monitors[m].position(id) is None implies
        #[trigger] next.monitors[m].position(id) is None by {
        crate::monitor::lemma_workspace_position(old, id, 0);
        crate::monitor::lemma_workspace_position(rest, id, 0);
        if let Some(a) = next.monitors[m].position(id) {
            assert(old.contains(rest[a]));
        }
    }
    if state.is_valid() {
        let id = state.workspace(place).id;
        crate::monitor::lemma_workspace_position(rest, id, 0);
        if let Some(a) = next.monitors[m].position(id) {
            let b = if a < at {
                a
            } else {
                a + 1
            };
            assert(state.monitors[m].workspaces[b].id == state.monitors[m].workspaces[at].id);
        }
    }
}

/// An instance of a spanning workspace that is moved off a removed monitor stays hidden: the
/// monitor that it is moved to displays what it displayed before.
pub proof fn law_parked_instance_stays_hidden(
    state: StateView,
    configs: Seq<WorkspaceConfigView>,
    place: (int, int),
    target: int,
    focused: Option<u128>,
    workspace: u128,
)
    requires
        state.is_valid(),
        0 <= place.0 < state.monitors.len(),
        0 <= place.1 < state.monitors[place.0].workspaces.len(),
        0 <= target < state.monitors.len(),
        target != place.0,
        state.workspace(place).config.spanning_group is Some,
        state.monitors[target].displayed() is Some,
    ensures
        shows(rehomed(state, configs, place, target, focused).monitors[target], workspace) <==> shows(
            state.monitors[target],
            workspace,
        ),
{
    let parked = WorkspaceView { monitor: None, ..state.workspace(place) };
    let moved = state.detach(place).attach(target, parked);
    let sorted = moved.sort(target, configs);
    let next = rehomed(state, configs, place, target, focused);
    lemma_move_keeps(state, place, target, parked);
    lemma_sort_keeps(moved, target, configs);
    lemma_keeps_transitive(state, moved, sorted, 0, 0);
    lemma_kept_valid(state, sorted, 0);
    let old = state.monitors[target];
    let new = next.monitors[target];
    let first = old.focus_order[0];
    assert(new == sorted.monitors[target]);
    assert(new.focus_order[0] == first);
    assert(is_valid_monitor(new));
    assert(new.position(new.focus_order[0]) is Some);
    crate::monitor::lemma_workspace_position(new.workspaces, first, 0);
    crate::monitor::lemma_workspace_position(old.workspaces, first, 0);
}

/// Removing a vacated monitor leaves a valid state, in which every workspace that holds
/// anything is still there.
proof fn lemma_without_monitor(state: StateView, monitor: int)
    requires
        state.is_valid(),
        0 <= monitor < state.monitors.len(),
        is_vacated(state, monitor),
    ensures
        without_monitor(state, monitor).is_valid(),
        keeps_occupied(state, without_monitor(state, monitor)),
        forall|m: int|
            0 <= m < state.monitors.len() - 1 ==> (#[trigger] without_monitor(
                state,
                monitor,
            ).monitors[m]).id != state.monitors[monitor].id,
{
    let next = without_monitor(state, monitor);
    let id = state.monitors[monitor].id;
    let old_at = |m: int| if m < monitor { m } else { m + 1 };
    assert forall|m: int| 0 <= m < next.monitors.len() implies #[trigger] next.monitors[m]
        == state.monitors[old_at(m)] by {}
    assert(state.focus_order.contains(id));
    assert forall|x: u128|
        x != id && state.focus_order.contains(x) implies #[trigger] next.focus_order.contains(
        x,
    ) by {
        crate::focus_order::lemma_id_position(state.focus_order, id, 0);
        let at = crate::focus_order::id_position(state.focus_order, id, 0)->0;
        let j = choose|j: int| 0 <= j < state.focus_order.len() && state.focus_order[j] == x;
        let k = if j < at {
            j
        } else {
            j - 1
        };
        assert(next.focus_order[k] == x);
    }
    assert forall|m: int| 0 <= m < next.monitors.len() implies next.focus_order.contains(
        (#[trigger] next.monitors[m]).id,
    ) && next.monitors[m].id != id && is_valid_monitor(next.monitors[m]) by {
        let n = old_at(m);
        assert(next.monitors[m] == state.monitors[n]);
        assert(is_valid_monitor(state.monitors[n]));
        if n < monitor {
            assert(state.monitors[n].id != state.monitors[monitor].id);
        } else {
            assert(state.monitors[monitor].id != state.monitors[n].id);
        }
        assert(state.focus_order.contains(state.monitors[n].id));
    }
    assert forall|m: int, n: int| 0 <= m < n < next.monitors.len() implies (
    #[trigger] next.monitors[m]).id != (#[trigger] next.monitors[n]).id by {
        assert(next.monitors[m] == state.monitors[old_at(m)]);
        assert(next.monitors[n] == state.monitors[old_at(n)]);
        assert(state.monitors[old_at(m)].id != state.monitors[old_at(n)].id);
    }
    assert(is_valid_layout(next));
    assert forall|i: int, a: int, n: int, b: int|
        0 <= i < next.monitors.len() && 0 <= a < next.monitors[i].workspaces.len() && 0 <= n
            < next.monitors.len() && 0 <= b < next.monitors[n].workspaces.len() && (
        #[trigger] next.monitors[i].workspaces[a]).id == (
        #[trigger] next.monitors[n].workspaces[b]).id implies i == n && a == b by {
        assert(next.monitors[i] == state.monitors[old_at(i)]);
        assert(next.monitors[n] == state.monitors[old_at(n)]);
        assert(state.monitors[old_at(i)].workspaces[a].id
            == state.monitors[old_at(n)].workspaces[b].id);
    }
    assert forall|m: int, a: int|
        0 <= m < next.monitors.len() && 0 <= a < next.monitors[m].workspaces.len() implies (
    #[trigger] next.monitors[m].workspaces[a]).id < next.next_id by {
        assert(next.monitors[m] == state.monitors[old_at(m)]);
        assert(state.monitors[old_at(m)].workspaces[a].id < state.next_id);
    }
    assert forall|w: u128|
        crate::container::has_nodes(state.nodes, w) && state.locate(w) is Some implies
        #[trigger] next.locate(w) is Some by {
        lemma_located(state.monitors, w, 0);
        let (n, b) = state.locate(w)->0;
        if n == monitor {
            assert(!state.has_children(state.monitors[monitor].workspaces[b].id));
        }
        let m = if n < monitor {
            n
        } else {
            n - 1
        };
        assert(next.monitors[m] == state.monitors[n]);
        lemma_is_located(next.monitors, m, b, 0);
    }
}

/// Displaying a workspace on its monitor keeps everything.
pub proof fn lemma_displayed_keeps(state: StateView, monitor: int, id: u128)
    requires
        0 <= monitor < state.monitors.len(),
    ensures
        keeps(
            state,
            state.set_monitor(monitor, state.monitors[monitor].display(id)),
            0,
        ),
{
    let shown = state.monitors[monitor].display(id);
    crate::invariants::lemma_moved_to_front(state.monitors[monitor].focus_order, id);
    if state.is_valid() {
        let old = state.monitors[monitor];
        assert(is_valid_monitor(old));
        assert forall|k: int| 0 <= k < shown.focus_order.len() implies shown.position(
            #[trigger] shown.focus_order[k],
        ) is Some by {
            let x = shown.focus_order[k];
            assert(shown.focus_order.contains(x));
            let j = choose|j: int| 0 <= j < old.focus_order.len() && old.focus_order[j] == x;
            assert(old.position(old.focus_order[j]) is Some);
        }
        assert(is_valid_monitor(shown));
        assert forall|a: int, b: int|
            0 <= a < shown.workspaces.len() && 0 <= b < shown.workspaces.len() && (
            #[trigger] shown.workspaces[a]).id == (
            #[trigger] shown.workspaces[b]).id implies a == b by {
            assert(state.monitors[monitor].workspaces[a].id
                == state.monitors[monitor].workspaces[b].id);
        }
        assert forall|a: int| 0 <= a < shown.workspaces.len() implies (
        #[trigger] shown.workspaces[a]).id < state.next_id by {
            assert(state.monitors[monitor].workspaces[a].id < state.next_id);
        }
        assert forall|a: int, n: int, b: int|
            0 <= a < shown.workspaces.len() && 0 <= n < state.monitors.len() && n != monitor && 0
                <= b < state.monitors[n].workspaces.len() implies (
        #[trigger] shown.workspaces[a]).id != (
        #[trigger] state.monitors[n].workspaces[b]).id by {
            assert(state.monitors[monitor].workspaces[a].id == shown.workspaces[a].id);
        }
        assert forall|a: int| 0 <= a < old.workspaces.len()
            implies crate::monitor::workspace_position(
            shown.workspaces,
            (#[trigger] old.workspaces[a]).id,
            0,
        ) is Some by {
            crate::invariants::lemma_located_at(state.monitors, monitor, a);
        }
    }
    crate::invariants::lemma_set_monitor_keeps(state, monitor, shown);
}

/// Whether a monitor is gone, but every window and every workspace that holds anything is still
/// there.
pub open spec fn is_removed(before: StateView, after: StateView, monitor: u128) -> bool {
    &&& after.is_valid()
    &&& after.nodes == before.nodes
    &&& keeps_occupied(before, after)
    &&& after.monitors.len() == before.monitors.len() - 1
    &&& forall|m: int|
        0 <= m < after.monitors.len() ==> (#[trigger] after.monitors[m]).id != monitor
}

proof fn lemma_removal(before: StateView, cleared: StateView, monitor: int, after: StateView)
    requires
        before.is_valid(),
        0 <= monitor < before.monitors.len(),
        keeps(before, cleared, 0),
        cleared.nodes == before.nodes,
        is_vacated(cleared, monitor),
        keeps(without_monitor(cleared, monitor), after, 0),
        after.nodes == cleared.nodes,
    ensures
        is_removed(before, after, before.monitors[monitor].id),
{
    let detached = without_monitor(cleared, monitor);
    lemma_kept(before, cleared, 0);
    lemma_kept_valid(before, cleared, 0);
    lemma_without_monitor(cleared, monitor);
    lemma_kept(detached, after, 0);
    lemma_kept_valid(detached, after, 0);
    assert forall|id: u128|
        crate::container::has_nodes(before.nodes, id) && before.locate(id) is Some implies
        #[trigger] after.locate(id) is Some by {
        assert(cleared.locate(id) is Some);
        assert(detached.locate(id) is Some);
    }
    assert(cleared.monitors[monitor].id == before.monitors[monitor].id);
    assert forall|m: int| 0 <= m < after.monitors.len() implies (#[trigger] after.monitors[m]).id
        != before.monitors[monitor].id by {
        assert(detached.monitors[m].id == after.monitors[m].id);
    }
}

fn find_other_monitor(state: &WmState, id: u128) -> (target: Option<usize>)
    ensures
        position_view(target) == other_monitor(state@.monitors, id, 0),
        target matches Some(at) ==> at < state.monitors@.len() && state.monitors@[at as int].id
            != id,
{
    let mut i: usize = 0;
    while i < state.monitors.len()
        invariant
            i <= state.monitors@.len(),
            other_monitor(state@.monitors, id, 0) == other_monitor(state@.monitors, id, i as int),
        decreases state.monitors@.len() - i,
    {
        assert(state@.monitors[i as int] == state.monitors@[i as int]@);
        if state.monitors[i].id != id {
            return Some(i);
        }
        i = i + 1;
    }
    None
}

/// The state with what a monitor displays focused.
pub open spec fn displayed_focused(state: StateView, monitor: int) -> (
    StateView,
    Result<(), WmErrorView>,
) {
    match state.monitors[monitor].displayed() {
        None => (state, Err(WmErrorView::NoDisplayedWorkspace)),
        Some(at) => {
            let container = state.container_to_focus(state.monitors[monitor].workspaces[at].id);
            (state.focus(container).focus_change(), Ok(()))
        },
    }
}

/// Focuses the workspace that a monitor displays, after the focused monitor was removed.
///
/// The focused container either went with the monitor or sits in a parked, hidden instance.
/// This way native focus doesn't stay on a hidden window (which would get its workspace
/// force-displayed on the next focus event).
fn focus_displayed(monitor: usize, state: &mut WmState) -> (result: Result<(), WmError>)
    requires
        monitor < old(state).monitors@.len(),
    ensures
        final(state)@ == displayed_focused(old(state)@, monitor as int).0,
        outcome(result) == displayed_focused(old(state)@, monitor as int).1,
        keeps(old(state)@, final(state)@, 0),
        final(state)@.nodes == old(state)@.nodes,
{
    let ghost before = state@;
    proof {
        lemma_keeps_itself(before);
    }
    assert(state@.monitors[monitor as int] == state.monitors@[monitor as int]@);
    match state.monitors[monitor].displayed_workspace() {
        Some(at) => {
            proof {
                lemma_has_place(*state, monitor, at);
            }
            let displayed = state.monitors[monitor].workspaces[at].id;
            let container_to_focus = state.container_to_focus(displayed);
            state.set_focused_descendant(container_to_focus);
            let ghost focused = state@;
            state.pending_sync.queue_focus_change();
            proof {
                lemma_focus_keeps(before, container_to_focus);
                lemma_unrelated_keeps(focused, state@);
                lemma_keeps_transitive(before, focused, state@, 0, 0);
            }
            Ok(())
        },
        None => Err(WmError::NoDisplayedWorkspace),
    }
}

/// Removes a monitor and everything that is still on it.
fn detach_monitor(monitor: usize, state: &mut WmState) -> (removed: Monitor)
    requires
        monitor < old(state).monitors@.len(),
    ensures
        final(state)@ == without_monitor(old(state)@, monitor as int),
        removed@ == old(state)@.monitors[monitor as int],
{
    let ghost before = state@;
    assert(before.monitors[monitor as int] == state.monitors@[monitor as int]@);
    let removed = state.monitors.remove(monitor);
    assert(state@.monitors =~= before.monitors.remove(monitor as int));
    forget(&mut state.focus_order, removed.id);
    removed
}

/// Removes a monitor, moving its workspaces to another monitor.
///
/// A focused regular workspace stays displayed. Instances of spanning workspaces are parked
/// hidden on the target monitor; `repage_spanning_desktops` later assigns them their page and
/// monitor, so their layout survives until the monitor is reconnected.
pub fn remove_monitor(monitor: usize, state: &mut WmState, config: &UserConfig) -> (result: Result<
    (),
    WmError,
>)
    requires
        monitor < old(state).monitors@.len(),
    ensures
        final(state)@ == monitor_removed(
            old(state)@,
            config.value@.workspaces,
            monitor as int,
        ).0,
        outcome(result) == monitor_removed(
            old(state)@,
            config.value@.workspaces,
            monitor as int,
        ).1,
        old(state)@.is_valid() ==> final(state)@.is_valid(),
        old(state)@.is_valid() && result is Ok ==> is_removed(
            old(state)@,
            final(state)@,
            old(state)@.monitors[monitor as int].id,
        ),
{
    let ghost before = state@;
    assert(state@.monitors[monitor as int] == state.monitors@[monitor as int]@);
    let removed_id = state.monitors[monitor].id;
    let target = match find_other_monitor(state, removed_id) {
        Some(target) => target,
        None => {
            return Err(WmError::NoMonitorToMoveTo);
        },
    };
    let was_focused = match state.focused_monitor() {
        Some(focused) => {
            assert(state@.monitors[focused as int] == state.monitors@[focused as int]@);
            state.monitors[focused].id == removed_id
        },
        None => false,
    };
    rehome_workspaces(monitor, target, state, config);
    let ghost cleared = state@;
    proof {
        lemma_kept(before, cleared, 0);
        assert(cleared.monitors[monitor as int].device_name
            == before.monitors[monitor as int].device_name);
    }
    let removed = detach_monitor(monitor, state);
    let ghost detached = state@;
    proof {
        lemma_keeps_itself(detached);
        if before.is_valid() {
            lemma_removal(before, cleared, monitor as int, detached);
        }
    }
    if was_focused {
        let heir: usize = if target > monitor {
            target - 1
        } else {
            target
        };
        if let Err(error) = focus_displayed(heir, state) {
            return Err(error);
        }
    }
    let ghost refocused = state@;
    state.emit_event(
        WmEvent::MonitorRemoved { removed_id, removed_device_name: removed.device_name },
    );
    proof {
        lemma_unrelated_keeps(refocused, state@);
        lemma_keeps_transitive(detached, refocused, state@, 0, 0);
        if before.is_valid() {
            lemma_removal(before, cleared, monitor as int, state@);
        }
    }
    Ok(())
}

} // verus!
