//! What a page switch tidies up, and that distributing instances leaves focus where it was.
use vstd::prelude::*;

use crate::activate_workspace::default_activated;
use crate::container::ContainerRef;
use crate::focus_laws::{
    lemma_few_workspaces, lemma_filling_keeps, lemma_groups_valid, lemma_idle_deactivated,
    lemma_monitors_synced_keep, lemma_repaged_valid, page_displayed,
};
use crate::focus_spanning_workspace::{idle_deactivated, leads_away, page_instances, page_synced};
use crate::invariants::{lemma_kept, lemma_kept_valid, placements_fit};
use crate::monitor::MonitorView;
use crate::packing_laws::{
    groups_are_packed, law_repaged_groups_are_packed, lemma_default_config, lemma_is_listing,
    lemma_refocused_found,
};
use crate::page_key::PageKeyView;
use crate::repage_laws::{
    group_plan, is_instance, is_listing, is_pass, lemma_group_repaged, others_stay, same_frame,
};
use crate::repage_spanning_desktops::{
    group_repaged, groups_repaged, lemma_refocusing_keeps_focus, members_of, monitors_filled,
    refocused, repaged, MemberView,
};
use crate::rule_laws::lemma_pushed;
use crate::user_config::spanning_configs;
use crate::wm_error::WmErrorView;
use crate::wm_state::StateView;
use crate::workspace_config::WorkspaceConfigView;
use crate::workspace_map::{found, lemma_new_workspace_found, lemma_sort_found};

verus! {

/// Distributing groups leaves regular workspaces as they are, and brings back none that is gone.
proof fn lemma_groups_leave(
    state: StateView,
    listed: Seq<MemberView>,
    groups: Seq<WorkspaceConfigView>,
    from: int,
    changed: bool,
    x: u128,
)
    requires
        state.is_valid(),
        placements_fit(state),
        is_listing(listed, state.monitors),
        0 < state.monitors.len() <= usize::MAX,
        listed.len() <= usize::MAX,
        0 <= from <= groups.len(),
        groups_repaged(state, listed, groups, from, changed).1 is Ok,
        found(state.monitors, x) matches Some((_, workspace))
            ==> workspace.config.spanning_group is None,
    ensures
        found(groups_repaged(state, listed, groups, from, changed).0.monitors, x) == found(
            state.monitors,
            x,
        ),
    decreases groups.len() - from,
{
    if from < groups.len() {
        let name = groups[from].name;
        let (next, result) = group_repaged(state, listed, groups[from], changed);
        lemma_group_repaged(state, listed, groups[from], changed);
        assert(next.is_valid() && placements_fit(next) && same_frame(state, next) && is_listing(
            listed,
            next.monitors,
        ) && others_stay(
            state.monitors,
            next.monitors,
            name,
            group_plan(state, listed, name),
        )) by {
            reveal(is_pass);
        }
        assert(found(next.monitors, x) == found(state.monitors, x)) by {
            reveal(others_stay);
            assert(!is_instance(state.monitors, x, name));
        }
        lemma_groups_leave(next, listed, groups, from + 1, result->Ok_0, x);
    }
}

/// Filling monitors changes no workspace.
proof fn lemma_filling_leaves(
    state: StateView,
    configs: Seq<WorkspaceConfigView>,
    from: int,
    count: int,
    changed: bool,
    x: u128,
)
    requires
        state.is_valid(),
        0 <= from <= count <= state.monitors.len(),
        state.next_id + (count - from) <= u128::MAX,
        x < state.next_id,
        monitors_filled(state, configs, from, count, changed).1 is Ok,
    ensures
        found(monitors_filled(state, configs, from, count, changed).0.monitors, x) == found(
            state.monitors,
            x,
        ),
    decreases count - from,
{
    if from < count {
        let is_empty = state.monitors[from].workspaces.len() == 0;
        let filled = if is_empty {
            default_activated(state, configs, from).0
        } else {
            state
        };
        if is_empty {
            let (config, is_home) = lemma_default_config(state, configs, from, Seq::empty());
            lemma_new_workspace_found(state, configs, config, from, is_home);
            assert(found(filled.monitors, x) == found(state.monitors, x));
        }
        lemma_sort_found(filled, from, configs);
        let next = filled.sort(from, configs);
        assert(found(next.monitors, x) == found(filled.monitors, x));
        lemma_filling_leaves(next, configs, from + 1, count, changed || is_empty, x);
    }
}

/// Distributing instances anew leaves every regular workspace as it is, on its monitor, and brings
/// back no workspace that is gone.
pub proof fn law_repaging_leaves_regular_workspaces(
    state: StateView,
    configs: Seq<WorkspaceConfigView>,
    x: u128,
)
    requires
        state.is_valid(),
        placements_fit(state),
        state.next_id + state.monitors.len() <= usize::MAX,
        repaged(state, configs).1 is Ok,
        x < state.next_id,
        found(state.monitors, x) matches Some((_, workspace))
            ==> workspace.config.spanning_group is None,
    ensures
        found(repaged(state, configs).0.monitors, x) == found(state.monitors, x),
{
    if state.monitors.len() > 0 {
        let listed = members_of(state.workspaces());
        let groups = spanning_configs(configs, configs.len());
        let (paged, paging) = groups_repaged(state, listed, groups, 0, false);
        let count = state.monitors.len() as int;
        let filled = monitors_filled(paged, configs, 0, count, paging->Ok_0).0;
        lemma_is_listing(state);
        lemma_few_workspaces(state);
        lemma_groups_valid(state, listed, groups, 0, false);
        lemma_groups_leave(state, listed, groups, 0, false, x);
        lemma_filling_leaves(paged, configs, 0, count, paging->Ok_0, x);
        lemma_filling_keeps(paged, configs, 0, count, paging->Ok_0);
        lemma_kept_valid(paged, filled, count as nat);
        lemma_refocused_found(filled, state.focused_container());
        let last = refocused(filled, state.focused_container());
        assert(found(last.monitors, x) == found(filled.monitors, x));
    }
}

/// A window that has focus keeps it while instances are distributed anew, even if its workspace is
/// moved to another monitor.
pub proof fn law_repaging_keeps_focus_on_its_window(
    state: StateView,
    configs: Seq<WorkspaceConfigView>,
    window: u128,
    i: int,
)
    requires
        state.is_valid(),
        placements_fit(state),
        state.next_id + state.monitors.len() <= usize::MAX,
        repaged(state, configs).1 is Ok,
        state.focused_container() == Some(ContainerRef::Window(window)),
        0 <= i < state.nodes.len(),
        state.nodes[i].id == window,
        found(repaged(state, configs).0.monitors, state.nodes[i].workspace) is Some,
    ensures
        repaged(state, configs).0.focused_container() == Some(ContainerRef::Window(window)),
{
    if state.monitors.len() > 0 {
        let listed = members_of(state.workspaces());
        let groups = spanning_configs(configs, configs.len());
        let (paged, paging) = groups_repaged(state, listed, groups, 0, false);
        let count = state.monitors.len() as int;
        let filled = monitors_filled(paged, configs, 0, count, paging->Ok_0).0;
        let last = refocused(filled, state.focused_container());
        lemma_is_listing(state);
        lemma_few_workspaces(state);
        lemma_groups_valid(state, listed, groups, 0, false);
        lemma_filling_keeps(paged, configs, 0, count, paging->Ok_0);
        lemma_kept(paged, filled, count as nat);
        lemma_kept_valid(paged, filled, count as nat);
        assert(crate::invariants::same_tree(state.nodes, filled.nodes)) by {
            assert forall|k: int| #![trigger state.nodes[k]] #![trigger filled.nodes[k]]
                0 <= k < state.nodes.len() implies crate::invariants::same_node(
                state.nodes[k],
                filled.nodes[k],
            ) by {
                assert(crate::invariants::same_node(state.nodes[k], paged.nodes[k]));
                assert(crate::invariants::same_node(paged.nodes[k], filled.nodes[k]));
            }
        }
        assert(filled.window_focus_order == state.window_focus_order) by {
            lemma_filling_keeps_windows(paged, configs, 0, count, paging->Ok_0);
        }
        lemma_refocusing_keeps_focus(state, filled);
        lemma_refocused_found(filled, state.focused_container());
        let workspace = state.nodes[i].workspace;
        assert(found(filled.monitors, workspace) == found(last.monitors, workspace));
        lemma_repaged_valid(state, configs);
        crate::state_laws::law_first_node_with_an_identifier_is_found(state.nodes, window, 0);
        let at = crate::container::node_position(state.nodes, window, 0)->0;
        if at < i {
            assert(state.nodes[at].id != state.nodes[i].id);
        }
        crate::invariants::lemma_same_ids_same_node_position(
            state.nodes,
            last.nodes,
            window,
            0,
        );
        assert(crate::invariants::same_node(state.nodes[i], last.nodes[i]));
    }
}

proof fn lemma_filling_keeps_windows(
    state: StateView,
    configs: Seq<WorkspaceConfigView>,
    from: int,
    count: int,
    changed: bool,
)
    requires
        0 <= from <= count <= state.monitors.len(),
    ensures
        monitors_filled(state, configs, from, count, changed).0.window_focus_order
            == state.window_focus_order,
    decreases count - from,
{
    if from < count {
        let is_empty = state.monitors[from].workspaces.len() == 0;
        crate::repage_spanning_desktops::lemma_default_activated(state, configs, from);
        let filled = if is_empty {
            default_activated(state, configs, from).0
        } else {
            state
        };
        lemma_filling_keeps_windows(
            filled.sort(from, configs),
            configs,
            from + 1,
            count,
            changed || is_empty,
        );
    }
}

/// A page switch that displays anything else leaves no regular workspace that holds nothing, isn't
/// displayed and isn't kept alive, and keeps all other regular ones. Afterwards, the pages of each
/// declared group have no gaps, and no two of its instances share a monitor and page.
pub proof fn law_page_switch_tidies_up(
    state: StateView,
    configs: Seq<WorkspaceConfigView>,
    key: PageKeyView,
    m: int,
    a: int,
)
    requires
        state.is_valid(),
        placements_fit(state),
        state.next_id + state.focus_order.len() + state.monitors.len() <= usize::MAX,
        key.page >= 1,
        page_synced(state, configs, key).1 == Ok::<bool, WmErrorView>(true),
    ensures
        ({
            let shown = page_displayed(state, configs, key).0;
            let next = page_synced(state, configs, key).0;
            &&& groups_are_packed(next, configs)
            &&& 0 <= m < shown.monitors.len() && 0 <= a < shown.monitors[m].workspaces.len()
                && shown.monitors[m].workspaces[a].config.spanning_group is None ==> {
                let workspace = shown.monitors[m].workspaces[a];
                let holds = exists|i: int|
                    0 <= i < shown.nodes.len() && (#[trigger] shown.nodes[i]).workspace
                        == workspace.id;
                let is_shown = shown.monitors[m].focus_order[0] == workspace.id;
                found(next.monitors, workspace.id) == if !holds && !is_shown
                    && !workspace.config.keep_alive {
                    None
                } else {
                    Some((m, workspace))
                }
            }
        }),
{
    let (shown, _) = page_displayed(state, configs, key);
    let order = state.focus_order;
    let focused = state.monitors[state.focused_monitor()->0].id;
    lemma_monitors_synced_keep(state, configs, order, order.len(), key, focused, false);
    lemma_kept(state, shown, order.len());
    lemma_kept_valid(state, shown, order.len());
    crate::wm_state::lemma_monitor_position(state.monitors, state.focus_order[0], 0);
    let tidied = idle_deactivated(shown).0;
    lemma_idle_deactivated(shown);
    lemma_kept(shown, tidied, 0);
    lemma_few_workspaces(tidied);
    law_repaged_groups_are_packed(tidied, configs);
    if 0 <= m < shown.monitors.len() && 0 <= a < shown.monitors[m].workspaces.len()
        && shown.monitors[m].workspaces[a].config.spanning_group is None {
        let workspace = shown.monitors[m].workspaces[a];
        crate::focus_laws::law_idle_workspaces_are_destroyed(shown, m, a);
        assert(shown.monitors[m].workspaces[a].id < shown.next_id);
        law_repaging_leaves_regular_workspaces(tidied, configs, workspace.id);
    }
}

/// A page switch that displays nothing else changes nothing but focus.
pub proof fn law_idle_page_switch_changes_nothing_else(
    state: StateView,
    configs: Seq<WorkspaceConfigView>,
    key: PageKeyView,
)
    requires
        page_synced(state, configs, key).1 == Ok::<bool, WmErrorView>(false),
    ensures
        page_synced(state, configs, key).0 == page_displayed(state, configs, key).0,
        page_displayed(state, configs, key).1 == Ok::<bool, WmErrorView>(false),
        state.focused_monitor() is Some,
{
}

/// All instances of a page on a monitor are listed, from most to least recently focused: `origins`
/// holds their positions in the focus order.
pub proof fn law_instances_of_a_page_are_listed_by_recency(
    monitor: MonitorView,
    key: PageKeyView,
    count: nat,
) -> (origins: Seq<int>)
    requires
        count <= monitor.focus_order.len(),
        crate::invariants::is_valid_monitor(monitor),
    ensures
        origins.len() == page_instances(monitor, key, count).len(),
        forall|k: int, l: int|
            0 <= k < l < origins.len() ==> (#[trigger] origins[k]) < (#[trigger] origins[l]),
        forall|k: int|
            0 <= k < origins.len() ==> 0 <= #[trigger] origins[k] < count && page_instances(
                monitor,
                key,
                count,
            )[k].id == monitor.focus_order[origins[k]] && monitor.workspaces.contains(
                page_instances(monitor, key, count)[k],
            ) && page_instances(monitor, key, count)[k].config.page_key() == Some(key),
        forall|i: int, a: int|
            0 <= i < count && 0 <= a < monitor.workspaces.len() && monitor.position(
                monitor.focus_order[i],
            ) == Some(a) && (#[trigger] monitor.workspaces[a]).config.page_key() == Some(key)
                ==> #[trigger] origins.contains(i),
    decreases count,
{
    if count == 0 {
        Seq::empty()
    } else {
        let last = count - 1;
        let rest = law_instances_of_a_page_are_listed_by_recency(monitor, key, last as nat);
        crate::monitor::lemma_workspace_position(
            monitor.workspaces,
            monitor.focus_order[last],
            0,
        );
        assert(monitor.position(monitor.focus_order[last]) is Some);
        let at = monitor.position(monitor.focus_order[last])->0;
        let now = page_instances(monitor, key, count);
        let before = page_instances(monitor, key, last as nat);
        if monitor.workspaces[at].config.page_key() == Some(key) {
            lemma_pushed(rest, last);
            let origins = rest.push(last);
            assert forall|k: int| 0 <= k < origins.len() implies 0 <= #[trigger] origins[k] < count
                && now[k].id == monitor.focus_order[origins[k]] && monitor.workspaces.contains(
                now[k],
            ) && now[k].config.page_key() == Some(key) by {
                if k < rest.len() {
                    assert(origins[k] == rest[k] && now[k] == before[k]);
                } else {
                    assert(now[k] == monitor.workspaces[at]);
                }
            }
            origins
        } else {
            rest
        }
    }
}

/// Focusing a page leads nowhere only if the page has focus, going back is asked for, and the
/// recent workspace is that very page under another name.
pub proof fn law_only_the_same_page_leads_nowhere(
    state: StateView,
    configs: Seq<WorkspaceConfigView>,
    toggles: bool,
    key: PageKeyView,
    place: (int, int),
    recent: Seq<char>,
)
    requires
        state.focused_workspace() == Some(place),
    ensures
        !leads_away(state, configs, toggles, key) ==> {
            &&& toggles
            &&& state.monitors[place.0].workspaces[place.1].config.logical_name() == key.label()
            &&& state.recent_workspace_name is Some
            &&& state.recent_workspace_name->0 != key.label()
            &&& state.resolve_target(configs, state.recent_workspace_name->0) is Some
            &&& state.resolve_target(
                configs,
                state.recent_workspace_name->0,
            )->0.label() == key.label()
        },
        !toggles ==> leads_away(state, configs, toggles, key),
        toggles && state.monitors[place.0].workspaces[place.1].config.logical_name()
            == key.label() && state.recent_workspace_name == Some(recent) && recent != key.label()
            && state.resolve_target(configs, recent) == Some(key) ==> !leads_away(
            state,
            configs,
            toggles,
            key,
        ),
{
}

} // verus!
