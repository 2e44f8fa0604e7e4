//! Where each workspace is, and what operations change about it.
use vstd::prelude::*;

use crate::activate_workspace::{
    instance_config, lemma_new_workspace_keeps, new_tiling_direction, with_new_workspace,
};
use crate::invariants::{
    is_spanning, is_valid_monitor, keeps, lemma_deactivate_keeps, lemma_detach, lemma_keeps_itself,
    lemma_keeps_transitive, lemma_kept, lemma_kept_valid, lemma_located_at,
    lemma_set_workspace_keeps, lemma_sort_keeps, lemma_sorted_workspaces, lemma_unrelated_keeps,
    lemma_windows_still_fit, same_tree, windows_fit,
};
use crate::monitor::{lemma_workspace_position, MonitorView};
use crate::monitor_identity::MonitorIdentityView;
use crate::page_key::PageKeyView;
use crate::page_placement::PagePlacement;
use crate::repage_spanning_desktops::{
    changes_instance, is_misoriented, lemma_moved_keeps, lemma_transpose_keeps, moved_to_monitor,
    placed, placement_applied, renumbered, settled, turned,
};
use crate::wm_state::{lemma_located, located, same_layout, same_screen, StateView};
use crate::workspace::WorkspaceView;
use crate::workspace_config::WorkspaceConfigView;

verus! {

/// Monitor that a workspace is on, and its value.
pub open spec fn found(monitors: Seq<MonitorView>, id: u128) -> Option<(int, WorkspaceView)> {
    match located(monitors, id, 0) {
        Some((m, at)) => Some((m, monitors[m].workspaces[at])),
        None => None,
    }
}

/// Identifier of the most recently focused workspace of a monitor.
pub open spec fn front(monitor: MonitorView) -> Option<u128> {
    if monitor.focus_order.len() == 0 {
        None
    } else {
        Some(monitor.focus_order[0])
    }
}

/// Whether the monitors that have workspaces keep the most recently focused one.
pub open spec fn same_fronts(a: Seq<MonitorView>, b: Seq<MonitorView>) -> bool {
    a.len() == b.len() && forall|m: int|
        0 <= m < a.len() && front(#[trigger] a[m]) is Some ==> front(b[m]) == front(a[m])
}

/// Whether all workspaces but one are the same, on the same monitors.
pub open spec fn same_but(a: Seq<MonitorView>, b: Seq<MonitorView>, id: u128) -> bool {
    forall|x: u128| x != id ==> #[trigger] found(b, x) == found(a, x)
}

/// Place of a workspace that is found.
pub proof fn lemma_found_place(monitors: Seq<MonitorView>, id: u128) -> (a: int)
    requires
        found(monitors, id) is Some,
    ensures
        ({
            let (m, workspace) = found(monitors, id)->0;
            &&& 0 <= m < monitors.len()
            &&& 0 <= a < monitors[m].workspaces.len()
            &&& monitors[m].workspaces[a] == workspace
            &&& workspace.id == id
            &&& located(monitors, id, 0) == Some((m, a))
        }),
{
    lemma_located(monitors, id, 0);
    let (m, a) = located(monitors, id, 0)->0;
    a
}

/// A workspace is found where it is.
pub proof fn lemma_found_at(monitors: Seq<MonitorView>, m: int, a: int)
    requires
        crate::invariants::distinct_workspaces(monitors),
        0 <= m < monitors.len(),
        0 <= a < monitors[m].workspaces.len(),
    ensures
        found(monitors, monitors[m].workspaces[a].id) == Some((m, monitors[m].workspaces[a])),
{
    lemma_located_at(monitors, m, a);
}

/// A workspace that each monitor holds in both of two states alike is found alike.
proof fn lemma_found_alike(a: Seq<MonitorView>, b: Seq<MonitorView>, id: u128)
    requires
        crate::invariants::distinct_workspaces(a),
        crate::invariants::distinct_workspaces(b),
        a.len() == b.len(),
        forall|m: int, k: int|
            0 <= m < a.len() && 0 <= k < a[m].workspaces.len() && (
            #[trigger] a[m].workspaces[k]).id == id ==> b[m].workspaces.contains(
                a[m].workspaces[k],
            ),
        forall|m: int, k: int|
            0 <= m < b.len() && 0 <= k < b[m].workspaces.len() && (
            #[trigger] b[m].workspaces[k]).id == id ==> a[m].workspaces.contains(
                b[m].workspaces[k],
            ),
    ensures
        found(a, id) == found(b, id),
{
    if found(a, id) is Some {
        let k = lemma_found_place(a, id);
        let (m, workspace) = found(a, id)->0;
        assert(a[m].workspaces[k].id == id);
        assert(b[m].workspaces.contains(workspace));
        let l = choose|l: int| 0 <= l < b[m].workspaces.len() && b[m].workspaces[l] == workspace;
        lemma_found_at(b, m, l);
    } else if found(b, id) is Some {
        let k = lemma_found_place(b, id);
        let (m, workspace) = found(b, id)->0;
        assert(b[m].workspaces[k].id == id);
        assert(a[m].workspaces.contains(workspace));
        let l = choose|l: int| 0 <= l < a[m].workspaces.len() && a[m].workspaces[l] == workspace;
        lemma_found_at(a, m, l);
    }
}

/// What replacing a workspace by one with the same identifier changes.
pub proof fn lemma_set_workspace_found(state: StateView, place: (int, int), value: WorkspaceView)
    requires
        state.is_valid(),
        0 <= place.0 < state.monitors.len(),
        0 <= place.1 < state.monitors[place.0].workspaces.len(),
        value.id == state.workspace(place).id,
        value.monitor == state.workspace(place).monitor,
        is_spanning(value) ==> is_spanning(state.workspace(place)) || windows_fit(state, value.id),
    ensures
        ({
            let next = state.set_workspace(place, value);
            &&& next.is_valid()
            &&& same_layout(state.monitors, next.monitors)
            &&& found(next.monitors, value.id) == Some((place.0, value))
            &&& same_but(state.monitors, next.monitors, value.id)
            &&& same_fronts(state.monitors, next.monitors)
        }),
{
    let next = state.set_workspace(place, value);
    lemma_set_workspace_keeps(state, place, value);
    lemma_kept(state, next, 0);
    lemma_kept_valid(state, next, 0);
    lemma_found_at(next.monitors, place.0, place.1);
    assert forall|x: u128| x != value.id implies #[trigger] found(next.monitors, x) == found(
        state.monitors,
        x,
    ) by {
        let (a, b) = (state.monitors, next.monitors);
        assert forall|m: int, k: int|
            0 <= m < a.len() && 0 <= k < a[m].workspaces.len() && (
            #[trigger] a[m].workspaces[k]).id == x implies b[m].workspaces.contains(
            a[m].workspaces[k],
        ) by {
            assert(b[m].workspaces[k] == a[m].workspaces[k]);
        }
        assert forall|m: int, k: int|
            0 <= m < b.len() && 0 <= k < b[m].workspaces.len() && (
            #[trigger] b[m].workspaces[k]).id == x implies a[m].workspaces.contains(
            b[m].workspaces[k],
        ) by {
            assert(b[m].workspaces[k] == a[m].workspaces[k]);
        }
        lemma_found_alike(a, b, x);
    }
}

/// What removing a workspace that isn't displayed changes.
pub proof fn lemma_deactivate_found(state: StateView, id: u128)
    requires
        state.is_valid(),
        !state.has_children(id),
        !state.is_displayed(id),
    ensures
        ({
            let next = state.deactivate(id).0;
            &&& next.is_valid()
            &&& same_layout(state.monitors, next.monitors)
            &&& found(next.monitors, id) is None
            &&& same_but(state.monitors, next.monitors, id)
            &&& same_fronts(state.monitors, next.monitors)
        }),
{
    let next = state.deactivate(id).0;
    lemma_deactivate_keeps(state, id);
    lemma_kept(state, next, 0);
    lemma_kept_valid(state, next, 0);
    lemma_located(state.monitors, id, 0);
    if let Some(place) = state.locate(id) {
        let (n, at) = place;
        lemma_detach(state, place);
        let (a, b) = (state.monitors, next.monitors);
        assert(b == state.detach(place).monitors);
        assert forall|x: u128| x != id implies #[trigger] found(b, x) == found(a, x) by {
            assert forall|m: int, k: int|
                0 <= m < a.len() && 0 <= k < a[m].workspaces.len() && (
                #[trigger] a[m].workspaces[k]).id == x implies b[m].workspaces.contains(
                a[m].workspaces[k],
            ) by {
                let l = if m != n || k < at {
                    k
                } else {
                    k - 1
                };
                assert(b[m].workspaces[l] == a[m].workspaces[k]);
            }
            assert forall|m: int, k: int|
                0 <= m < b.len() && 0 <= k < b[m].workspaces.len() && (
                #[trigger] b[m].workspaces[k]).id == x implies a[m].workspaces.contains(
                b[m].workspaces[k],
            ) by {
                let l = if m != n || k < at {
                    k
                } else {
                    k + 1
                };
                assert(b[m].workspaces[k] == a[m].workspaces[l]);
            }
            lemma_found_alike(a, b, x);
        }
        assert forall|m: int| 0 <= m < a.len() && front(#[trigger] a[m]) is Some implies front(b[m])
            == front(a[m]) by {
            if m == n {
                assert(is_valid_monitor(a[n]));
                let first = a[n].focus_order[0];
                assert(a[n].position(first) is Some);
                lemma_workspace_position(a[n].workspaces, first, 0);
                assert(first != id);
                crate::focus_order::lemma_id_position(a[n].focus_order, id, 0);
            }
        }
    } else {
        assert(next == state);
    }
}

/// What putting the workspaces of a monitor in order changes.
pub proof fn lemma_sort_found(state: StateView, n: int, configs: Seq<WorkspaceConfigView>)
    requires
        state.is_valid(),
        0 <= n < state.monitors.len(),
    ensures
        ({
            let next = state.sort(n, configs);
            &&& next.is_valid()
            &&& same_layout(state.monitors, next.monitors)
            &&& forall|x: u128| #[trigger] found(next.monitors, x) == found(state.monitors, x)
            &&& same_fronts(state.monitors, next.monitors)
        }),
{
    let next = state.sort(n, configs);
    lemma_sort_keeps(state, n, configs);
    lemma_kept(state, next, 0);
    lemma_kept_valid(state, next, 0);
    lemma_sorted_workspaces(configs, state.monitors[n].workspaces);
    let (a, b) = (state.monitors, next.monitors);
    assert forall|x: u128| #[trigger] found(b, x) == found(a, x) by {
        assert forall|m: int, k: int|
            0 <= m < a.len() && 0 <= k < a[m].workspaces.len() && (
            #[trigger] a[m].workspaces[k]).id == x implies b[m].workspaces.contains(
            a[m].workspaces[k],
        ) by {
            if m != n {
                assert(b[m].workspaces[k] == a[m].workspaces[k]);
            }
        }
        assert forall|m: int, k: int|
            0 <= m < b.len() && 0 <= k < b[m].workspaces.len() && (
            #[trigger] b[m].workspaces[k]).id == x implies a[m].workspaces.contains(
            b[m].workspaces[k],
        ) by {
            if m != n {
                assert(b[m].workspaces[k] == a[m].workspaces[k]);
            }
        }
        lemma_found_alike(a, b, x);
    }
}

/// The value of a new workspace.
pub open spec fn new_workspace(
    state: StateView,
    config: WorkspaceConfigView,
    monitor: int,
    is_home: bool,
) -> WorkspaceView {
    WorkspaceView {
        monitor: Some(state.monitors[monitor].id),
        home: if is_home {
            Some(MonitorIdentityView::of(state.monitors, monitor))
        } else {
            None
        },
        ..WorkspaceView::created(
            state.next_id,
            config,
            new_tiling_direction(state.monitors[monitor]),
        )
    }
}

/// What creating a workspace changes.
pub proof fn lemma_new_workspace_found(
    state: StateView,
    configs: Seq<WorkspaceConfigView>,
    config: WorkspaceConfigView,
    n: int,
    is_home: bool,
)
    requires
        state.is_valid(),
        state.next_id < u128::MAX,
        0 <= n < state.monitors.len(),
    ensures
        ({
            let next = with_new_workspace(state, configs, config, n, is_home);
            &&& next.is_valid()
            &&& next.next_id == state.next_id + 1
            &&& same_layout(state.monitors, next.monitors)
            &&& found(state.monitors, state.next_id) is None
            &&& found(next.monitors, state.next_id) == Some(
                (n, new_workspace(state, config, n, is_home)),
            )
            &&& same_but(state.monitors, next.monitors, state.next_id)
            &&& same_fronts(state.monitors, next.monitors)
        }),
{
    let next = with_new_workspace(state, configs, config, n, is_home);
    let id = state.next_id;
    let created = new_workspace(state, config, n, is_home);
    lemma_new_workspace_keeps(state, configs, config, n, is_home);
    lemma_kept(state, next, 1);
    lemma_kept_valid(state, next, 1);
    let (a, b) = (state.monitors, next.monitors);
    let attached = a[n].workspaces.push(created);
    lemma_sorted_workspaces(configs, attached);
    assert(b[n].workspaces == crate::user_config::sorted_workspaces(configs, attached));
    assert(attached[a[n].workspaces.len() as int] == created);
    assert(b[n].workspaces.contains(created));
    let at = choose|at: int| 0 <= at < b[n].workspaces.len() && b[n].workspaces[at] == created;
    lemma_found_at(b, n, at);
    if found(a, id) is Some {
        let k = lemma_found_place(a, id);
        let (m, _) = found(a, id)->0;
        assert(state.monitors[m].workspaces[k].id < state.next_id);
    }
    assert forall|x: u128| x != id implies #[trigger] found(b, x) == found(a, x) by {
        assert forall|m: int, k: int|
            0 <= m < a.len() && 0 <= k < a[m].workspaces.len() && (
            #[trigger] a[m].workspaces[k]).id == x implies b[m].workspaces.contains(
            a[m].workspaces[k],
        ) by {
            if m != n {
                assert(b[m].workspaces[k] == a[m].workspaces[k]);
            } else {
                assert(attached[k] == a[m].workspaces[k]);
            }
        }
        assert forall|m: int, k: int|
            0 <= m < b.len() && 0 <= k < b[m].workspaces.len() && (
            #[trigger] b[m].workspaces[k]).id == x implies a[m].workspaces.contains(
            b[m].workspaces[k],
        ) by {
            if m != n {
                assert(b[m].workspaces[k] == a[m].workspaces[k]);
            } else {
                assert(attached.contains(b[m].workspaces[k]));
                let l = choose|l: int|
                    0 <= l < attached.len() && attached[l] == b[m].workspaces[k];
                assert(a[m].workspaces[l] == b[m].workspaces[k]);
            }
        }
        lemma_found_alike(a, b, x);
    }
}

/// What moving a workspace to the back of another monitor changes.
pub proof fn lemma_moved_found(state: StateView, place: (int, int), n: int)
    requires
        state.is_valid(),
        windows_fit(state, state.workspace(place).id),
        0 <= place.0 < state.monitors.len(),
        0 <= place.1 < state.monitors[place.0].workspaces.len(),
        0 <= n < state.monitors.len(),
        n != place.0,
    ensures
        ({
            let next = moved_to_monitor(state, place, n);
            let id = state.workspace(place).id;
            let value = WorkspaceView {
                monitor: Some(state.monitors[n].id),
                ..state.workspace(place)
            };
            &&& next.is_valid()
            &&& same_layout(state.monitors, next.monitors)
            &&& next.monitors[n].workspaces.len() > 0
            &&& next.monitors[n].workspaces.last() == value
            &&& found(next.monitors, id) == Some((n, value))
            &&& same_but(state.monitors, next.monitors, id)
            &&& forall|m: int|
                0 <= m < state.monitors.len() && front(#[trigger] state.monitors[m]) is Some
                    && !(m == place.0 && front(state.monitors[m]) == Some(id)) ==> front(
                    next.monitors[m],
                ) == front(state.monitors[m])
        }),
{
    let next = moved_to_monitor(state, place, n);
    let (o, at) = place;
    let id = state.workspace(place).id;
    lemma_moved_keeps(state, place, n);
    lemma_kept(state, next, 0);
    lemma_kept_valid(state, next, 0);
    let (a, b) = (state.monitors, next.monitors);
    let last = b[n].workspaces.len() - 1;
    lemma_found_at(b, n, last);
    assert(b[o].workspaces == a[o].workspaces.remove(at));
    assert forall|x: u128| x != id implies #[trigger] found(b, x) == found(a, x) by {
        assert forall|m: int, k: int|
            0 <= m < a.len() && 0 <= k < a[m].workspaces.len() && (
            #[trigger] a[m].workspaces[k]).id == x implies b[m].workspaces.contains(
            a[m].workspaces[k],
        ) by {
            let l = if m != o || k < at {
                k
            } else {
                k - 1
            };
            assert(b[m].workspaces[l] == a[m].workspaces[k]);
        }
        assert forall|m: int, k: int|
            0 <= m < b.len() && 0 <= k < b[m].workspaces.len() && (
            #[trigger] b[m].workspaces[k]).id == x implies a[m].workspaces.contains(
            b[m].workspaces[k],
        ) by {
            let l = if m != o || k < at {
                k
            } else {
                k + 1
            };
            assert(b[m].workspaces[k] == a[m].workspaces[l]);
        }
        lemma_found_alike(a, b, x);
    }
    assert forall|m: int|
        0 <= m < a.len() && front(#[trigger] a[m]) is Some && !(m == o && front(a[m]) == Some(
            id,
        )) implies front(b[m]) == front(a[m]) by {
        if m == o {
            crate::focus_order::lemma_id_position(a[o].focus_order, id, 0);
        }
    }
}

/// Value of an instance after its placement was applied.
pub open spec fn placed_view(
    monitors: Seq<MonitorView>,
    workspace: WorkspaceView,
    placement: PagePlacement,
    group: WorkspaceConfigView,
) -> WorkspaceView {
    let target = monitors[placement.monitor as int];
    let is_turned = is_misoriented(workspace, target);
    WorkspaceView {
        monitor: Some(target.id),
        config: if workspace.config.spanning_page != placement.page {
            instance_config(
                group,
                PageKeyView { group: group.name, page: placement.page },
                workspace.config.name,
            )
        } else {
            workspace.config
        },
        home: if placement.is_home {
            Some(MonitorIdentityView::of(monitors, placement.monitor as int))
        } else {
            workspace.home
        },
        tiling_direction: if is_turned {
            workspace.tiling_direction.spec_inverse()
        } else {
            workspace.tiling_direction
        },
        is_transposed: if is_turned {
            !workspace.is_transposed
        } else {
            workspace.is_transposed
        },
        ..workspace
    }
}

/// Identities depend on the screens only.
pub proof fn lemma_identity_of_layout(a: Seq<MonitorView>, b: Seq<MonitorView>, m: int)
    requires
        same_layout(a, b),
        0 <= m < a.len(),
    ensures
        MonitorIdentityView::of(a, m) == MonitorIdentityView::of(b, m),
{
    assert(same_screen(a[m], b[m]));
}

/// Whether only the workspace at one position changed from one state to another, to the given
/// value.
#[verifier::opaque]
spec fn changed_to(a: StateView, b: StateView, spot: (int, int), value: WorkspaceView) -> bool {
    &&& b.is_valid()
    &&& keeps(a, b, 0)
    &&& 0 <= spot.0 < b.monitors.len()
    &&& 0 <= spot.1 < b.monitors[spot.0].workspaces.len()
    &&& b.workspace(spot) == value
    &&& found(b.monitors, value.id) == Some((spot.0, value))
    &&& same_but(a.monitors, b.monitors, value.id)
    &&& same_fronts(a.monitors, b.monitors)
    &&& b.next_id == a.next_id
    &&& b.focus_order == a.focus_order
    &&& b.window_focus_order == a.window_focus_order
}

proof fn lemma_unchanged(state: StateView, spot: (int, int))
    requires
        state.is_valid(),
        0 <= spot.0 < state.monitors.len(),
        0 <= spot.1 < state.monitors[spot.0].workspaces.len(),
    ensures
        changed_to(state, state, spot, state.workspace(spot)),
{
    reveal(changed_to);
    lemma_keeps_itself(state);
    lemma_found_at(state.monitors, spot.0, spot.1);
}

proof fn lemma_changed_set(
    a: StateView,
    b: StateView,
    spot: (int, int),
    old: WorkspaceView,
    value: WorkspaceView,
)
    requires
        changed_to(a, b, spot, old),
        value.id == old.id,
        value.monitor == old.monitor,
        is_spanning(value) ==> is_spanning(old) || windows_fit(b, value.id),
    ensures
        changed_to(a, b.set_workspace(spot, value), spot, value),
{
    reveal(changed_to);
    let next = b.set_workspace(spot, value);
    lemma_set_workspace_found(b, spot, value);
    lemma_set_workspace_keeps(b, spot, value);
    lemma_keeps_transitive(a, b, next, 0, 0);
    assert forall|x: u128| x != value.id implies #[trigger] found(next.monitors, x) == found(
        a.monitors,
        x,
    ) by {
        assert(found(b.monitors, x) == found(a.monitors, x));
    }
}

proof fn lemma_changed_turned(a: StateView, b: StateView, spot: (int, int), old: WorkspaceView)
    requires
        changed_to(a, b, spot, old),
    ensures
        changed_to(
            a,
            turned(b, spot),
            spot,
            WorkspaceView {
                tiling_direction: old.tiling_direction.spec_inverse(),
                is_transposed: !old.is_transposed,
                ..old
            },
        ),
{
    let inverse = WorkspaceView { tiling_direction: old.tiling_direction.spec_inverse(), ..old };
    let tilted = b.set_workspace(spot, inverse);
    let flipped = b.transpose(spot);
    assert(b.workspace(spot) == old) by {
        reveal(changed_to);
    }
    lemma_changed_set(a, b, spot, old, inverse);
    assert(flipped.monitors == tilted.monitors);
    assert(changed_to(a, flipped, spot, inverse)) by {
        reveal(changed_to);
        lemma_transpose_keeps(b, spot);
        lemma_kept_valid(b, flipped, 0);
        lemma_keeps_transitive(a, b, flipped, 0, 0);
    }
    let marked = WorkspaceView { is_transposed: !inverse.is_transposed, ..inverse };
    assert(flipped.workspace(spot) == inverse) by {
        reveal(changed_to);
    }
    lemma_changed_set(a, flipped, spot, inverse, marked);
}

/// What the steps of applying a placement that follow the move change.
proof fn lemma_placed_in_place(
    there: StateView,
    spot: (int, int),
    first: WorkspaceView,
    is_turned: bool,
    placement: PagePlacement,
    group: WorkspaceConfigView,
) -> (home: StateView)
    requires
        there.is_valid(),
        0 <= spot.0 < there.monitors.len(),
        0 <= spot.1 < there.monitors[spot.0].workspaces.len(),
        there.workspace(spot) == first,
        spot.0 == placement.monitor,
        first.monitor == Some(there.monitors[spot.0].id),
        is_turned == is_misoriented(first, there.monitors[spot.0]),
        windows_fit(there, first.id),
    ensures
        ({
            let fitted = if is_turned {
                turned(there, spot)
            } else {
                there
            };
            let paged = if first.config.spanning_page != placement.page {
                renumbered(fitted, spot, group, placement.page)
            } else {
                fitted
            };
            home == if placement.is_home {
                settled(paged, spot)
            } else {
                paged
            }
        }),
        changed_to(there, home, spot, placed_view(there.monitors, first, placement, group)),
{
    lemma_unchanged(there, spot);
    let fitted = if is_turned {
        turned(there, spot)
    } else {
        there
    };
    let second = if is_turned {
        WorkspaceView {
            tiling_direction: first.tiling_direction.spec_inverse(),
            is_transposed: !first.is_transposed,
            ..first
        }
    } else {
        first
    };
    if is_turned {
        lemma_changed_turned(there, there, spot, first);
    }
    assert(fitted.workspace(spot) == second) by {
        reveal(changed_to);
    }
    let key = PageKeyView { group: group.name, page: placement.page };
    let is_paged = first.config.spanning_page != placement.page;
    let third = if is_paged {
        WorkspaceView { config: instance_config(group, key, first.config.name), ..second }
    } else {
        second
    };
    let paged = if is_paged {
        renumbered(fitted, spot, group, placement.page)
    } else {
        fitted
    };
    if is_paged {
        assert(windows_fit(fitted, first.id)) by {
            reveal(changed_to);
            lemma_kept(there, fitted, 0);
            lemma_windows_still_fit(there, fitted, first.id);
        }
        lemma_changed_set(there, fitted, spot, second, third);
    }
    assert(paged.workspace(spot) == third && same_layout(there.monitors, paged.monitors)) by {
        reveal(changed_to);
        lemma_kept(there, paged, 0);
    }
    if placement.is_home {
        let value = WorkspaceView {
            home: Some(MonitorIdentityView::of(paged.monitors, spot.0)),
            ..third
        };
        lemma_identity_of_layout(there.monitors, paged.monitors, spot.0);
        lemma_changed_set(there, paged, spot, third, value);
        settled(paged, spot)
    } else {
        paged
    }
}

/// What applying a placement changes: the instance is on the monitor and page of the placement,
/// and everything else stays.
pub proof fn lemma_placement_found(
    state: StateView,
    placement: PagePlacement,
    group: WorkspaceConfigView,
)
    requires
        state.is_valid(),
        windows_fit(state, placement.workspace),
        placement.monitor < state.monitors.len(),
        found(state.monitors, placement.workspace) is Some,
    ensures
        is_placed(state, placement_applied(state, placement, group).0, placement, group),
        placement_applied(state, placement, group).1 is Ok,
{
    let id = placement.workspace;
    let at = lemma_found_place(state.monitors, id);
    let (m, workspace) = found(state.monitors, id)->0;
    let place = (m, at);
    let n = placement.monitor as int;
    assert(is_valid_monitor(state.monitors[m]));
    assert(workspace.monitor == Some(state.monitors[m].id));
    let is_moved = state.monitors[m].id != state.monitors[n].id;
    if m < n {
        assert(state.monitors[m].id != state.monitors[n].id);
    } else if n < m {
        assert(state.monitors[n].id != state.monitors[m].id);
    }
    let there = if is_moved {
        moved_to_monitor(state, place, n)
    } else {
        state
    };
    let spot = if is_moved {
        (n, there.monitors[n].workspaces.len() - 1)
    } else {
        place
    };
    lemma_keeps_itself(state);
    if is_moved {
        lemma_moved_found(state, place, n);
        lemma_moved_keeps(state, place, n);
    }
    lemma_kept(state, there, 0);
    lemma_windows_still_fit(state, there, id);
    assert(same_screen(state.monitors[n], there.monitors[n]));
    let first = there.workspace(spot);
    let is_turned = is_misoriented(workspace, state.monitors[n]);
    let home = lemma_placed_in_place(there, spot, first, is_turned, placement, group);
    let next = placement_applied(state, placement, group).0;
    assert(next == placed(state, place, placement, group));
    assert(next.monitors == home.monitors);
    lemma_identity_of_layout(state.monitors, there.monitors, n);
    assert(is_placed(state, next, placement, group)) by {
        reveal(changed_to);
        reveal(is_placed);
        lemma_keeps_transitive(state, there, home, 0, 0);
        lemma_unrelated_keeps(home, next);
        lemma_keeps_transitive(state, home, next, 0, 0);
        lemma_kept(state, next, 0);
        lemma_kept_valid(state, next, 0);
        assert forall|x: u128| x != id implies #[trigger] found(next.monitors, x) == found(
            state.monitors,
            x,
        ) by {
            assert(found(there.monitors, x) == found(state.monitors, x));
            assert(found(home.monitors, x) == found(there.monitors, x));
        }
    }
}

/// Whether one state is another one with a placement applied: the instance is on the monitor
/// and page of the placement, and everything else stays.
#[verifier::opaque]
pub open spec fn is_placed(
    state: StateView,
    next: StateView,
    placement: PagePlacement,
    group: WorkspaceConfigView,
) -> bool {
    let id = placement.workspace;
    let (m, workspace) = found(state.monitors, id)->0;
    &&& next.is_valid()
    &&& next.next_id == state.next_id
    &&& next.focus_order == state.focus_order
    &&& next.window_focus_order == state.window_focus_order
    &&& same_tree(state.nodes, next.nodes)
    &&& same_layout(state.monitors, next.monitors)
    &&& found(next.monitors, id) == Some(
        (placement.monitor as int, placed_view(state.monitors, workspace, placement, group)),
    )
    &&& same_but(state.monitors, next.monitors, id)
    &&& forall|n: int|
        0 <= n < state.monitors.len() && front(#[trigger] state.monitors[n]) is Some && !(n == m
            && m != placement.monitor && front(state.monitors[n]) == Some(id)) ==> front(
            next.monitors[n],
        ) == front(state.monitors[n])
}

/// Applying a placement again changes nothing.
pub proof fn law_placement_is_applied_once(
    state: StateView,
    placement: PagePlacement,
    group: WorkspaceConfigView,
)
    requires
        state.is_valid(),
        windows_fit(state, placement.workspace),
        placement.page >= 1,
        placement.monitor < state.monitors.len(),
        found(state.monitors, placement.workspace) is Some,
    ensures
        ({
            let (next, _) = placement_applied(state, placement, group);
            placement_applied(next, placement, group) == (
                next,
                Ok::<bool, crate::wm_error::WmErrorView>(false),
            )
        }),
{
    reveal(is_placed);
    let (next, _) = placement_applied(state, placement, group);
    let id = placement.workspace;
    lemma_placement_found(state, placement, group);
    let at = lemma_found_place(next.monitors, id);
    let n = placement.monitor as int;
    let place = (n, at);
    let workspace = next.workspace(place);
    assert(same_screen(state.monitors[n], next.monitors[n]));
    assert(!changes_instance(next, place, placement));
    if placement.is_home {
        lemma_identity_of_layout(state.monitors, next.monitors, n);
        let again = settled(next, place);
        assert(again.monitors[n].workspaces =~= next.monitors[n].workspaces);
        assert(again.monitors =~= next.monitors);
    }
}

/// Whether an instance is where a placement puts it: on its monitor and page, under its own name,
/// in its group, with a layout that fits, and at home if the placement says so. `changed` says
/// whether it was moved, transposed or renumbered.
pub open spec fn is_at_placement(
    before: StateView,
    after: StateView,
    placement: PagePlacement,
    group: WorkspaceConfigView,
    changed: bool,
) -> bool {
    let (m, old_value) = found(before.monitors, placement.workspace)->0;
    let (n, value) = found(after.monitors, placement.workspace)->0;
    &&& found(after.monitors, placement.workspace) is Some
    &&& n == placement.monitor
    &&& value.monitor == Some(after.monitors[n].id)
    &&& value.config.spanning_page == placement.page
    &&& value.config.spanning_group == Some(group.name)
    &&& value.config.name == old_value.config.name
    &&& !is_misoriented(value, after.monitors[n])
    &&& placement.is_home ==> value.home == Some(MonitorIdentityView::of(after.monitors, n))
    &&& changed <==> m != n || is_misoriented(old_value, before.monitors[n])
        || old_value.config.spanning_page != placement.page
}

/// Whether a workspace is attached, and an instance of a group.
pub open spec fn is_member(
    monitors: Seq<MonitorView>,
    id: u128,
    group: WorkspaceConfigView,
) -> bool {
    found(monitors, id) matches Some((_, workspace)) && workspace.config.spanning_group == Some(
        group.name,
    )
}

/// What a placed instance is: on its monitor and page, under its own name, in its group, with
/// a layout that fits, and at home if the placement says so.
pub proof fn law_placement_is_applied(
    state: StateView,
    placement: PagePlacement,
    group: WorkspaceConfigView,
)
    requires
        state.is_valid(),
        windows_fit(state, placement.workspace),
        placement.page >= 1,
        placement.monitor < state.monitors.len(),
        is_member(state.monitors, placement.workspace, group),
    ensures
        placement_applied(state, placement, group).1 is Ok,
        is_at_placement(
            state,
            placement_applied(state, placement, group).0,
            placement,
            group,
            placement_applied(state, placement, group).1->Ok_0,
        ),
{
    reveal(is_placed);
    let (next, _) = placement_applied(state, placement, group);
    lemma_placement_found(state, placement, group);
    let at = lemma_found_place(state.monitors, placement.workspace);
    let (m, _) = found(state.monitors, placement.workspace)->0;
    let n = placement.monitor as int;
    assert(same_screen(state.monitors[n], next.monitors[n]));
    lemma_identity_of_layout(state.monitors, next.monitors, n);
    if m < n {
        assert(state.monitors[m].id != state.monitors[n].id);
    } else if n < m {
        assert(state.monitors[n].id != state.monitors[m].id);
    }
}

} // verus!
