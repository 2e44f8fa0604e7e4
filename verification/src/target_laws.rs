//! What focusing a workspace by a target leads to.
use vstd::prelude::*;

use crate::activate_workspace::activated;
use crate::activation_laws::law_workspace_is_activated_by_its_name;
use crate::focus_laws::{law_focused_first_page_is_displayed, law_focused_page_is_displayed};
use crate::focus_spanning_workspace::{idle_deactivated, is_idle, page_cost, page_focused};
use crate::focus_workspace::{
    active_id, first_idle, instance_focused, lemma_first_idle, target_focused, target_page,
    WorkspaceTargetView,
};
use crate::invariants::{
    lemma_focus_keeps, lemma_keeps_transitive, lemma_kept, lemma_kept_valid, lemma_located_at,
    lemma_unrelated_keeps, placements_fit,
};
use crate::monitor::lemma_workspace_position;
use crate::packing_laws::{lemma_attached_place, regular_configs_join_first_page};
use crate::page_display::{displays_page, lemma_focus_displays};
use crate::page_keeping::is_reassigned;
use crate::page_key::PageKeyView;
use crate::repage_spanning_desktops::repaged;
use crate::settled_homes::{homes_are_unrivalled, is_settled};
use crate::state_laws::{
    law_all_workspaces_are_listed, law_displayed_workspace_was_focused_last,
    law_first_workspace_with_a_name_is_found, law_name_stands_for_a_page,
};
use crate::wm_error::WmErrorView;
use crate::wm_state::{attached, named, same_screen, StateView};
use crate::workspace::WorkspaceView;
use crate::workspace_config::WorkspaceConfigView;
use crate::workspace_map::{found, front, lemma_deactivate_found, lemma_found_at, lemma_found_place};

verus! {

/// The recent workspace is focused just like by its name, whether that stands for a page or for a
/// single workspace.
pub proof fn law_recent_workspace_is_focused_like_by_name(
    state: StateView,
    configs: Seq<WorkspaceConfigView>,
    toggles: bool,
    place: (int, int),
    name: Seq<char>,
)
    requires
        state.focused_workspace() == Some(place),
        state.recent_workspace_name == Some(name),
        state.monitors[place.0].workspaces[place.1].config.name != name,
    ensures
        target_focused(state, configs, toggles, WorkspaceTargetView::Recent) == target_focused(
            state,
            configs,
            toggles,
            WorkspaceTargetView::Name(name),
        ),
{
}

/// Without a recent workspace, there is nothing to go back to.
pub proof fn law_nothing_recent_is_not_focused(
    state: StateView,
    configs: Seq<WorkspaceConfigView>,
    toggles: bool,
)
    requires
        state.focused_workspace() is Some,
        state.recent_workspace_name is None,
    ensures
        target_focused(state, configs, toggles, WorkspaceTargetView::Recent) == (
            state,
            Ok::<(), WmErrorView>(()),
        ),
        target_focused(state, configs, toggles, WorkspaceTargetView::Adjacent(None)) == (
            state,
            Ok::<(), WmErrorView>(()),
        ),
{
}

/// Without a focused workspace, no target can be focused.
pub proof fn law_focusing_needs_a_focused_workspace(
    state: StateView,
    configs: Seq<WorkspaceConfigView>,
    toggles: bool,
    target: WorkspaceTargetView,
)
    requires
        state.focused_workspace() is None,
    ensures
        target_focused(state, configs, toggles, target) == (
            state,
            Err::<(), WmErrorView>(WmErrorView::NoFocusedWorkspace),
        ),
{
}

/// A name that stands for a page focuses the whole page: the name of an active instance, or, if no
/// active workspace has it, that of a declared group.
pub proof fn law_name_of_a_page_focuses_the_page(
    state: StateView,
    configs: Seq<WorkspaceConfigView>,
    toggles: bool,
    name: Seq<char>,
    w: int,
    g: int,
)
    requires
        state.focused_workspace() is Some,
    ensures
        0 <= w < state.workspaces().len() && state.workspaces()[w].config.name == name
            && state.workspaces()[w].config.spanning_group is Some && (forall|v: int|
            0 <= v < w ==> (#[trigger] state.workspaces()[v]).config.name != name)
            ==> target_focused(state, configs, toggles, WorkspaceTargetView::Name(name))
            == page_focused(
            state,
            configs,
            toggles,
            PageKeyView {
                group: state.workspaces()[w].config.spanning_group->0,
                page: if state.workspaces()[w].config.spanning_page == 0 {
                    1
                } else {
                    state.workspaces()[w].config.spanning_page
                },
            },
        ),
        (forall|v: int|
            0 <= v < state.workspaces().len() ==> (#[trigger] state.workspaces()[v]).config.name
                != name) && 0 <= g < configs.len() && configs[g].name == name
            && configs[g].monitors is Some ==> target_focused(
            state,
            configs,
            toggles,
            WorkspaceTargetView::Name(name),
        ) == page_focused(state, configs, toggles, PageKeyView { group: name, page: 1 }),
{
    law_name_stands_for_a_page(state, configs, name, w, g);
}

/// After the recent workspace was focused, every monitor displays its page if it is part of a first
/// page: if it is the name of an active instance on the first page of a group, or, if no active
/// workspace has that name, that of a declared group. This takes that the page doesn't have focus
/// already, and what focusing a page takes.
pub proof fn law_recent_page_is_displayed_everywhere(
    state: StateView,
    configs: Seq<WorkspaceConfigView>,
    toggles: bool,
    place: (int, int),
    name: Seq<char>,
    group: Seq<char>,
    w: int,
    g: int,
)
    requires
        state.is_valid(),
        placements_fit(state),
        state.next_id + page_cost(state) <= usize::MAX,
        state.focused_workspace() == Some(place),
        state.recent_workspace_name == Some(name),
        ({
            ||| {
                &&& 0 <= w < state.workspaces().len()
                &&& state.workspaces()[w].config.name == name
                &&& state.workspaces()[w].config.spanning_group == Some(group)
                &&& state.workspaces()[w].config.spanning_page <= 1
                &&& forall|v: int|
                    0 <= v < w ==> (#[trigger] state.workspaces()[v]).config.name != name
            }
            ||| {
                &&& forall|v: int|
                    0 <= v < state.workspaces().len() ==> (
                    #[trigger] state.workspaces()[v]).config.name != name
                &&& 0 <= g < configs.len()
                &&& configs[g].name == name
                &&& configs[g].monitors is Some
                &&& group == name
            }
        }),
        !toggles || state.monitors[place.0].workspaces[place.1].config.logical_name() != group,
        regular_configs_join_first_page(configs, group),
        homes_are_unrivalled(state.monitors, group) || is_settled(state.monitors, group),
        target_focused(state, configs, toggles, WorkspaceTargetView::Recent).1 is Ok,
    ensures
        ({
            let next = target_focused(state, configs, toggles, WorkspaceTargetView::Recent).0;
            next.monitors.len() == state.monitors.len() && forall|m: int|
                0 <= m < state.monitors.len() ==> displays_page(
                    #[trigger] next.monitors[m],
                    PageKeyView { group, page: 1 },
                )
        }),
{
    law_name_stands_for_a_page(state, configs, name, w, g);
    law_focused_first_page_is_displayed(state, configs, toggles, group, place);
}

/// After a page was focused by a name that stands for it, or as the recent workspace, every monitor
/// displays it, if each instance that is displayed is assigned its monitor and page again in the
/// end.
pub proof fn law_target_page_is_displayed_everywhere(
    state: StateView,
    configs: Seq<WorkspaceConfigView>,
    toggles: bool,
    place: (int, int),
    name: Seq<char>,
    key: PageKeyView,
)
    requires
        state.is_valid(),
        placements_fit(state),
        state.next_id + page_cost(state) <= usize::MAX,
        key.page >= 1,
        state.focused_workspace() == Some(place),
        state.resolve_target(configs, name) == Some(key),
        !toggles || state.monitors[place.0].workspaces[place.1].config.logical_name()
            != key.label(),
        is_reassigned(
            idle_deactivated(
                crate::focus_laws::page_displayed(repaged(state, configs).0, configs, key).0,
            ).0,
            configs,
            key,
        ),
        page_focused(state, configs, toggles, key).1 is Ok,
    ensures
        ({
            let next = target_focused(state, configs, toggles, WorkspaceTargetView::Name(name)).0;
            next.monitors.len() == state.monitors.len() && forall|m: int|
                0 <= m < state.monitors.len() ==> displays_page(#[trigger] next.monitors[m], key)
        }),
        state.recent_workspace_name == Some(name) ==> target_focused(
            state,
            configs,
            toggles,
            WorkspaceTargetView::Recent,
        ) == target_focused(state, configs, toggles, WorkspaceTargetView::Name(name)),
{
    law_focused_page_is_displayed(state, configs, toggles, key, place);
}

/// What focusing a single workspace changes.
proof fn lemma_instance_focused(state: StateView, m: int, a: int)
    requires
        state.is_valid(),
        0 <= m < state.monitors.len(),
        0 <= a < state.monitors[m].workspaces.len(),
    ensures
        ({
            let workspace = state.monitors[m].workspaces[a];
            let (next, result) = instance_focused(state, workspace.id);
            &&& result == Ok::<(), WmErrorView>(())
            &&& next.is_valid()
            &&& next.monitors.len() == state.monitors.len()
            &&& front(next.monitors[m]) == Some(workspace.id)
            &&& next.focus_order.len() > 0
            &&& next.focus_order[0] == state.monitors[m].id
            &&& next.monitors[m].id == state.monitors[m].id
            &&& found(next.monitors, workspace.id) == Some((m, workspace))
            &&& next.pending_sync.needs_focus_update
            &&& next.pending_sync.containers_to_redraw.contains(workspace.id)
            &&& next.pending_sync.containers_to_redraw.contains(state.monitors[m].focus_order[0])
            &&& next.nodes == state.nodes
            &&& forall|n: int|
                0 <= n < state.monitors.len() && n != m && front(#[trigger] state.monitors[n])
                    is Some ==> front(next.monitors[n]) == front(state.monitors[n])
        }),
{
    let workspace = state.monitors[m].workspaces[a];
    let id = workspace.id;
    let monitor = state.monitors[m];
    lemma_located_at(state.monitors, m, a);
    law_displayed_workspace_was_focused_last(state, m, a);
    lemma_workspace_position(monitor.workspaces, monitor.focus_order[0], 0);
    let container = state.container_to_focus(id);
    let focused = state.focus(container);
    let displayed = monitor.focus_order[0];
    let shown = focused.focus_change().redraw(displayed).redraw(id);
    lemma_focus_displays(state, m, a);
    lemma_focus_keeps(state, container);
    lemma_unrelated_keeps(focused, shown);
    lemma_keeps_transitive(state, focused, shown, 0, 0);
    lemma_kept(state, shown, 0);
    lemma_kept_valid(state, shown, 0);
    lemma_workspace_position(shown.monitors[m].workspaces, shown.monitors[m].focus_order[0], 0);
    assert(shown.monitors[m].focus_order[0] == id);
    lemma_found_at(shown.monitors, m, a);
    law_displayed_workspace_was_focused_last(shown, m, a);
    lemma_first_idle(shown, shown.workspaces(), 0);
    assert(shown.nodes == state.nodes) by {
        lemma_focus_nodes(state, container);
    }
    assert(same_screen(state.monitors[m], shown.monitors[m]));
    if let Some(idle) = first_idle(shown, shown.workspaces(), 0) {
        assert(idle != id);
        lemma_idle_is_attached(shown, shown.workspaces(), 0);
        let i = choose|i: int|
            {
                &&& 0 <= i < shown.workspaces().len()
                &&& (#[trigger] shown.workspaces()[i]).id == idle
                &&& is_idle(shown, shown.workspaces()[i])
                &&& forall|j: int|
                    0 <= j < i ==> !is_idle(shown, #[trigger] shown.workspaces()[j])
            };
        let (n, b) = lemma_attached_place(shown.monitors, shown.monitors.len(), i);
        lemma_located_at(shown.monitors, n, b);
        lemma_deactivate_found(shown, idle);
        let next = shown.deactivate(idle).0;
        assert(front(shown.monitors[m]) is Some);
        assert(front(next.monitors[m]) == front(shown.monitors[m]));
        assert(found(next.monitors, id) == found(shown.monitors, id));
        assert(same_screen(shown.monitors[m], next.monitors[m]));
        assert forall|n: int|
            0 <= n < state.monitors.len() && n != m && front(#[trigger] state.monitors[n])
                is Some implies front(next.monitors[n]) == front(state.monitors[n]) by {
            assert(shown.monitors[n] == state.monitors[n]);
            assert(front(shown.monitors[n]) is Some);
        }
    }
}

proof fn lemma_focus_nodes(state: StateView, container: crate::container::ContainerRef)
    ensures
        state.focus(container).nodes == state.nodes,
{
}

/// An idle workspace is one of those that are looked at.
proof fn lemma_idle_is_attached(state: StateView, workspaces: Seq<WorkspaceView>, from: int)
    requires
        0 <= from,
    ensures
        match first_idle(state, workspaces, from) {
            Some(id) => exists|i: int|
                {
                    &&& from <= i < workspaces.len()
                    &&& (#[trigger] workspaces[i]).id == id
                    &&& is_idle(state, workspaces[i])
                    &&& forall|j: int|
                        from <= j < i ==> !is_idle(state, #[trigger] workspaces[j])
                },
            None => forall|j: int|
                from <= j < workspaces.len() ==> !is_idle(state, #[trigger] workspaces[j]),
        },
    decreases workspaces.len() - from,
{
    if from < workspaces.len() {
        lemma_idle_is_attached(state, workspaces, from + 1);
        if is_idle(state, workspaces[from]) {
            assert(workspaces[from].id == first_idle(state, workspaces, from)->0);
        } else if let Some(id) = first_idle(state, workspaces, from) {
            let i = choose|i: int|
                {
                    &&& from + 1 <= i < workspaces.len()
                    &&& (#[trigger] workspaces[i]).id == id
                    &&& is_idle(state, workspaces[i])
                    &&& forall|j: int|
                        from + 1 <= j < i ==> !is_idle(state, #[trigger] workspaces[j])
                };
            assert(workspaces[i].id == id);
        }
    }
}

/// The workspace that focusing another one destroys is the first one that holds nothing, isn't
/// displayed and isn't kept alive. There is one if and only if any such workspace is active.
pub proof fn law_first_idle_workspace_is_destroyed(state: StateView)
    requires
        state.is_valid(),
    ensures
        match first_idle(state, state.workspaces(), 0) {
            Some(id) => exists|i: int|
                {
                    let workspace = #[trigger] state.workspaces()[i];
                    &&& 0 <= i < state.workspaces().len()
                    &&& workspace.id == id
                    &&& !workspace.config.keep_alive
                    &&& !state.is_displayed(id)
                    &&& forall|n: int|
                        0 <= n < state.nodes.len() ==> (#[trigger] state.nodes[n]).workspace != id
                },
            None => forall|i: int|
                {
                    let workspace = #[trigger] state.workspaces()[i];
                    0 <= i < state.workspaces().len() ==> workspace.config.keep_alive
                        || state.is_displayed(workspace.id) || exists|n: int|
                        0 <= n < state.nodes.len() && (#[trigger] state.nodes[n]).workspace
                            == workspace.id
                },
        },
{
    lemma_idle_is_attached(state, state.workspaces(), 0);
    if let Some(id) = first_idle(state, state.workspaces(), 0) {
        let i = choose|i: int|
            {
                &&& 0 <= i < state.workspaces().len()
                &&& (#[trigger] state.workspaces()[i]).id == id
                &&& is_idle(state, state.workspaces()[i])
                &&& forall|j: int|
                    0 <= j < i ==> !is_idle(state, #[trigger] state.workspaces()[j])
            };
        assert(state.workspaces()[i].id == id);
    }
}

/// Focusing a single workspace displays it on its monitor, which gets focus. All other monitors
/// display what they did.
pub proof fn law_focused_instance_is_displayed_alone(state: StateView, m: int, a: int)
    requires
        state.is_valid(),
        0 <= m < state.monitors.len(),
        0 <= a < state.monitors[m].workspaces.len(),
    ensures
        ({
            let id = state.monitors[m].workspaces[a].id;
            let (next, result) = instance_focused(state, id);
            &&& result == Ok::<(), WmErrorView>(())
            &&& next.monitors.len() == state.monitors.len()
            &&& next.monitors[m].focus_order.len() > 0
            &&& next.monitors[m].focus_order[0] == id
            &&& next.focus_order[0] == state.monitors[m].id
            &&& next.nodes == state.nodes
            &&& next.pending_sync.needs_focus_update
            &&& next.pending_sync.containers_to_redraw.contains(id)
            &&& next.pending_sync.containers_to_redraw.contains(state.monitors[m].focus_order[0])
            &&& forall|n: int|
                0 <= n < state.monitors.len() && n != m && (
                #[trigger] state.monitors[n]).focus_order.len() > 0
                    ==> next.monitors[n].focus_order.len() > 0 && next.monitors[n].focus_order[0]
                    == state.monitors[n].focus_order[0]
        }),
{
    lemma_instance_focused(state, m, a);
    let next = instance_focused(state, state.monitors[m].workspaces[a].id).0;
    assert forall|n: int|
        0 <= n < state.monitors.len() && n != m && (
        #[trigger] state.monitors[n]).focus_order.len() > 0 implies
        next.monitors[n].focus_order.len() > 0 && next.monitors[n].focus_order[0]
        == state.monitors[n].focus_order[0] by {
        assert(front(state.monitors[n]) is Some);
        assert(front(next.monitors[n]) == front(state.monitors[n]));
    }
}

/// A regular workspace that is focused by its name, or as the adjacent one, is displayed on its
/// monitor, which gets focus. All other monitors display what they did, and where focus came from
/// is remembered.
pub proof fn law_named_workspace_is_displayed(
    state: StateView,
    configs: Seq<WorkspaceConfigView>,
    toggles: bool,
    place: (int, int),
    m: int,
    a: int,
    target: WorkspaceTargetView,
)
    requires
        state.is_valid(),
        state.focused_workspace() == Some(place),
        0 <= m < state.monitors.len(),
        0 <= a < state.monitors[m].workspaces.len(),
        (m, a) != place,
        match target {
            WorkspaceTargetView::Name(name) => {
                &&& state.monitors[m].workspaces[a].config.name == name
                &&& state.monitors[m].workspaces[a].config.spanning_group is None
                &&& forall|n: int, b: int|
                    0 <= n < state.monitors.len() && 0 <= b < state.monitors[n].workspaces.len()
                        && (#[trigger] state.monitors[n].workspaces[b]).config.name == name ==> (n,
                    b) == (m, a)
            },
            WorkspaceTargetView::Recent => false,
            WorkspaceTargetView::Adjacent(id) => id == Some(state.monitors[m].workspaces[a].id),
        },
    ensures
        ({
            let id = state.monitors[m].workspaces[a].id;
            let (next, result) = target_focused(state, configs, toggles, target);
            &&& result == Ok::<(), WmErrorView>(())
            &&& next.monitors[m].focus_order.len() > 0
            &&& next.monitors[m].focus_order[0] == id
            &&& next.focus_order[0] == state.monitors[m].id
            &&& next.recent_workspace_name == Some(
                state.monitors[place.0].workspaces[place.1].config.logical_name(),
            )
            &&& next.pending_sync.needs_cursor_jump
            &&& next.pending_sync.needs_focus_update
            &&& forall|n: int|
                0 <= n < state.monitors.len() && n != m && (
                #[trigger] state.monitors[n]).focus_order.len() > 0
                    ==> next.monitors[n].focus_order.len() > 0 && next.monitors[n].focus_order[0]
                    == state.monitors[n].focus_order[0]
        }),
{
    crate::packing_laws::lemma_focused_workspace(state);
    law_focused_instance_is_displayed_alone(state, m, a);
    if let WorkspaceTargetView::Name(name) = target {
        lemma_only_name(state, m, a);
        assert(state.workspace_by_name(name) == Some(state.monitors[m].workspaces[a]));
        let origin = state.monitors[place.0].workspaces[place.1];
        assert(origin.config.name != name);
    }
}

/// A workspace whose name no other one has is found by it.
proof fn lemma_only_name(state: StateView, m: int, a: int)
    requires
        0 <= m < state.monitors.len(),
        0 <= a < state.monitors[m].workspaces.len(),
        forall|n: int, b: int|
            0 <= n < state.monitors.len() && 0 <= b < state.monitors[n].workspaces.len() && (
            #[trigger] state.monitors[n].workspaces[b]).config.name
                == state.monitors[m].workspaces[a].config.name ==> (n, b) == (m, a),
    ensures
        state.workspace_by_name(state.monitors[m].workspaces[a].config.name) == Some(
            state.monitors[m].workspaces[a],
        ),
{
    let workspace = state.monitors[m].workspaces[a];
    let name = workspace.config.name;
    let all = state.workspaces();
    law_first_workspace_with_a_name_is_found(all, name, 0);
    law_all_workspaces_are_listed(state.monitors, state.monitors.len(), m, a);
    let at = attached(state.monitors, m as nat).len() + a;
    assert(all[at].config.name == name);
    let other = named(all, name, 0)->0;
    let i = choose|i: int|
        {
            &&& 0 <= i < all.len()
            &&& (#[trigger] all[i]) == other
            &&& other.config.name == name
            &&& forall|j: int| 0 <= j < i ==> (#[trigger] all[j]).config.name != name
        };
    let (n, b) = lemma_attached_place(state.monitors, state.monitors.len(), i);
    assert(state.monitors[n].workspaces[b].config.name == name);
}

/// A workspace that isn't active is activated when it is focused by its name, and is then
/// displayed on its monitor, which gets focus. `m` is the position of the monitor.
pub proof fn law_inactive_workspace_is_activated_and_displayed(
    state: StateView,
    configs: Seq<WorkspaceConfigView>,
    toggles: bool,
    place: (int, int),
    name: Seq<char>,
) -> (m: int)
    requires
        state.is_valid(),
        state.next_id < u128::MAX,
        state.focused_workspace() == Some(place),
        forall|w: int|
            0 <= w < state.workspaces().len() ==> (#[trigger] state.workspaces()[w]).config.name
                != name,
        state.resolve_target(configs, name) is None,
        activated(state, configs, Some(name), None).1 is Ok,
    ensures
        ({
            let (next, result) = target_focused(
                state,
                configs,
                toggles,
                WorkspaceTargetView::Name(name),
            );
            &&& result == Ok::<(), WmErrorView>(())
            &&& 0 <= m < next.monitors.len() == state.monitors.len()
            &&& next.focus_order[0] == state.monitors[m].id
            &&& next.monitors[m].focus_order.len() > 0
            &&& next.monitors[m].focus_order[0] == state.next_id
            &&& found(next.monitors, state.next_id) matches Some((n, workspace)) && n == m
                && workspace.config.name == name
            &&& next.recent_workspace_name == Some(
                state.monitors[place.0].workspaces[place.1].config.logical_name(),
            )
        }),
{
    crate::packing_laws::lemma_focused_workspace(state);
    let all = state.workspaces();
    law_first_workspace_with_a_name_is_found(all, name, 0);
    let active = activated(state, configs, Some(name), None).0;
    let (m, a) = law_workspace_is_activated_by_its_name(state, configs, name, None);
    let origin = state.monitors[place.0].workspaces[place.1];
    law_all_workspaces_are_listed(state.monitors, state.monitors.len(), place.0, place.1);
    assert(all[attached(state.monitors, place.0 as nat).len() + place.1] == origin);
    assert(origin.config.name != name);
    lemma_activated_valid(state, configs, name);
    assert forall|n: int, b: int|
        0 <= n < active.monitors.len() && 0 <= b < active.monitors[n].workspaces.len() && (
        #[trigger] active.monitors[n].workspaces[b]).config.name == name implies (n, b) == (
        m,
        a,
    ) by {
        let x = active.monitors[n].workspaces[b].id;
        lemma_found_at(active.monitors, n, b);
        if x != state.next_id {
            assert(found(active.monitors, x) == found(state.monitors, x));
            let c = lemma_found_place(state.monitors, x);
            law_all_workspaces_are_listed(state.monitors, state.monitors.len(), n, c);
            assert(all[attached(state.monitors, n as nat).len() + c].config.name != name);
        } else {
            assert(active.monitors[n].workspaces[b].id == active.monitors[m].workspaces[a].id);
        }
    }
    lemma_only_name(active, m, a);
    assert(active_id(active, name) == Some(state.next_id));
    lemma_instance_focused(active, m, a);
    assert(same_screen(state.monitors[m], active.monitors[m]));
    m
}

proof fn lemma_activated_valid(
    state: StateView,
    configs: Seq<WorkspaceConfigView>,
    name: Seq<char>,
)
    requires
        state.is_valid(),
        state.next_id < u128::MAX,
        activated(state, configs, Some(name), None).1 is Ok,
    ensures
        ({
            let next = activated(state, configs, Some(name), None).0;
            &&& next.is_valid()
            &&& crate::wm_state::same_layout(state.monitors, next.monitors)
            &&& forall|x: u128|
                x != state.next_id ==> #[trigger] found(next.monitors, x) == found(
                    state.monitors,
                    x,
                )
        }),
{
    let declared = crate::activate_workspace::config_to_activate(
        state,
        configs,
        Some(name),
        None,
    )->Ok_0;
    let config = crate::activate_workspace::activated_config(declared);
    let target = crate::activate_workspace::monitor_to_activate(state, config, None)->0;
    if state.focus_order.len() > 0 {
        crate::wm_state::lemma_monitor_position(state.monitors, state.focus_order[0], 0);
    }
    crate::workspace_map::lemma_new_workspace_found(
        state,
        configs,
        config,
        target,
        declared.monitors is Some,
    );
}

/// Focusing the focused workspace by its name does nothing, or leads back to the recent workspace
/// if that is asked for.
pub proof fn law_refocusing_a_workspace_leads_back(
    state: StateView,
    configs: Seq<WorkspaceConfigView>,
    place: (int, int),
    name: Seq<char>,
)
    requires
        state.focused_workspace() == Some(place),
        state.monitors[place.0].workspaces[place.1].config.name == name,
        state.resolve_target(configs, name) is None,
    ensures
        target_focused(state, configs, false, WorkspaceTargetView::Name(name)) == (
            state,
            Ok::<(), WmErrorView>(()),
        ),
        target_page(state, configs, WorkspaceTargetView::Recent) is None ==> target_focused(
            state,
            configs,
            true,
            WorkspaceTargetView::Name(name),
        ) == target_focused(state, configs, true, WorkspaceTargetView::Recent),
{
}

} // verus!
