//! What focusing workspaces and pages displays, and what it destroys.
use vstd::prelude::*;

use crate::first_page_laws::{
    law_repaging_keeps_first_page, law_repaging_settles, lemma_display_stays_settled,
};
use crate::focus_spanning_workspace::{
    all_deactivated, idle_deactivated, idle_ids, is_idle, is_settled_switch, monitor_synced,
    monitors_synced, page_cost, page_focused, page_instance, page_instances, page_shown,
    page_synced, toggle_name, with_page_instance,
};
use crate::focus_workspace::{regular_focused, WorkspaceTargetView};
use crate::invariants::{
    is_valid_monitor, keeps, lemma_deactivate_keeps, lemma_focus_keeps, lemma_keeps_itself,
    lemma_keeps_more, lemma_keeps_transitive, lemma_kept, lemma_kept_valid, lemma_located_at,
    lemma_same_monitor_position, lemma_sort_keeps, lemma_unrelated_keeps, placements_fit,
};
use crate::monitor::lemma_workspace_position;
use crate::packing_laws::{
    lemma_attached_place, lemma_default_config, lemma_is_listing, regular_configs_join_first_page,
};
use crate::page_display::{
    displays_page, displays_page_everywhere, law_page_is_displayed_on_every_monitor,
    law_page_is_displayed_on_monitor,
};
use crate::page_keeping::{
    fronts_show, is_reassigned, law_repaging_keeps_page, lemma_fronts_are_displayed, switches_to,
};
use crate::page_key::PageKeyView;
use crate::repage_laws::{
    host_of, is_front, is_instance, is_listing, is_pass, lemma_group_repaged,
    lemma_same_frame_itself, lemma_same_frame_transitive, same_frame,
};
use crate::repage_spanning_desktops::{
    group_repaged, groups_repaged, members_of, monitors_filled, refocused, repaged, MemberView,
};
use crate::rule_laws::lemma_pushed;
use crate::settled_homes::{homes_are_unrivalled, is_settled, lemma_stays_settled};
use crate::user_config::{spanning_config, spanning_configs};
use crate::wm_error::WmErrorView;
use crate::wm_state::{
    attached, lemma_monitor_position, monitor_position, same_layout, same_screen, StateView,
};
use crate::workspace::WorkspaceView;
use crate::workspace_config::WorkspaceConfigView;
use crate::workspace_map::{
    found, front, lemma_deactivate_found, lemma_found_at, lemma_found_place, same_fronts,
};

verus! {

/// The workspaces of a valid state are no more than the identifiers that were given out.
pub proof fn lemma_few_workspaces(state: StateView)
    requires
        state.is_valid(),
    ensures
        state.workspaces().len() <= state.next_id,
{
    let all = state.workspaces();
    let listed = members_of(all);
    lemma_is_listing(state);
    let numbers = Seq::new(all.len(), |i: int| all[i].id as int);
    assert forall|i: int, j: int|
        0 <= i < numbers.len() && 0 <= j < numbers.len() && i != j implies numbers[i]
        != numbers[j] by {
        if i < j {
            assert(listed[i].id != listed[j].id);
        } else {
            assert(listed[j].id != listed[i].id);
        }
    }
    let range = vstd::set_lib::set_int_range(0, state.next_id as int);
    vstd::set_lib::lemma_int_range(0, state.next_id as int);
    numbers.unique_seq_to_set();
    assert forall|n: int| numbers.to_set().contains(n) implies #[trigger] range.contains(n) by {
        let i = choose|i: int| 0 <= i < numbers.len() && numbers[i] == n;
        let (m, a) = lemma_attached_place(state.monitors, state.monitors.len(), i);
        assert(state.monitors[m].workspaces[a].id < state.next_id);
    }
    vstd::set_lib::lemma_len_subset(numbers.to_set(), range);
}

/// A workspace is displayed if it was focused last on its monitor.
pub proof fn lemma_displayed_is_front(state: StateView, x: u128)
    requires
        state.is_valid(),
        found(state.monitors, x) is Some,
    ensures
        state.is_displayed(x) <==> is_front(state.monitors, x),
        front(state.monitors[host_of(state.monitors, x)]) is Some,
{
    let a = lemma_found_place(state.monitors, x);
    let (m, _) = found(state.monitors, x)->0;
    crate::state_laws::law_displayed_workspace_was_focused_last(state, m, a);
    let monitor = state.monitors[m];
    assert(is_valid_monitor(monitor));
    assert(monitor.focus_order.contains(monitor.workspaces[a].id));
}

/// What removing hidden, empty workspaces changes.
proof fn lemma_all_deactivated(state: StateView, ids: Seq<u128>, from: int)
    requires
        state.is_valid(),
        0 <= from <= ids.len(),
        ids.no_duplicates(),
        forall|k: int|
            from <= k < ids.len() ==> !state.has_children(#[trigger] ids[k])
                && !state.is_displayed(ids[k]) && found(state.monitors, ids[k]) is Some,
    ensures
        ({
            let (next, result) = all_deactivated(state, ids, from);
            &&& result is Ok
            &&& next.is_valid()
            &&& same_layout(state.monitors, next.monitors)
            &&& same_fronts(state.monitors, next.monitors)
            &&& next == (StateView { monitors: next.monitors, events: next.events, ..state })
            &&& keeps(state, next, 0)
            &&& forall|k: int|
                from <= k < ids.len() ==> found(next.monitors, #[trigger] ids[k]) is None
            &&& forall|x: u128|
                !(exists|k: int| from <= k < ids.len() && #[trigger] ids[k] == x)
                    ==> #[trigger] found(next.monitors, x) == found(state.monitors, x)
        }),
    decreases ids.len() - from,
{
    let next = all_deactivated(state, ids, from).0;
    if from == ids.len() {
        assert(same_layout(state.monitors, state.monitors));
        lemma_keeps_itself(state);
    } else {
        let id = ids[from];
        let at = lemma_found_place(state.monitors, id);
        let (middle, result) = state.deactivate(id);
        lemma_deactivate_found(state, id);
        lemma_deactivate_keeps(state, id);
        assert forall|k: int| from + 1 <= k < ids.len() implies !middle.has_children(
            #[trigger] ids[k],
        ) && !middle.is_displayed(ids[k]) && found(middle.monitors, ids[k]) is Some by {
            assert(ids[from] != ids[k]);
            let x = ids[k];
            assert(found(middle.monitors, x) == found(state.monitors, x));
            lemma_displayed_is_front(state, x);
            lemma_displayed_is_front(middle, x);
            let spot = lemma_found_place(state.monitors, x);
            let m = host_of(state.monitors, x);
            assert(front(state.monitors[m]) is Some);
            assert(front(middle.monitors[m]) == front(state.monitors[m]));
        }
        lemma_all_deactivated(middle, ids, from + 1);
        lemma_keeps_transitive(state, middle, next, 0, 0);
        assert forall|i: int| #![trigger state.monitors[i]] #![trigger next.monitors[i]]
            0 <= i < state.monitors.len() implies same_screen(
            state.monitors[i],
            next.monitors[i],
        ) by {
            assert(same_screen(state.monitors[i], middle.monitors[i]));
            assert(same_screen(middle.monitors[i], next.monitors[i]));
        }
        assert forall|m: int|
            0 <= m < state.monitors.len() && front(#[trigger] state.monitors[m]) is Some implies
            front(next.monitors[m]) == front(state.monitors[m]) by {
            assert(front(middle.monitors[m]) == front(state.monitors[m]));
        }
        assert(!(exists|k: int| from + 1 <= k < ids.len() && #[trigger] ids[k] == id)) by {
            if exists|k: int| from + 1 <= k < ids.len() && #[trigger] ids[k] == id {
                let k = choose|k: int| from + 1 <= k < ids.len() && #[trigger] ids[k] == id;
                assert(ids[from] != ids[k]);
            }
        }
        assert(found(next.monitors, id) == found(middle.monitors, id));
        assert forall|x: u128|
            !(exists|k: int| from <= k < ids.len() && #[trigger] ids[k] == x) implies
            #[trigger] found(next.monitors, x) == found(state.monitors, x) by {
            assert(ids[from] != x);
            assert(found(middle.monitors, x) == found(state.monitors, x));
        }
    }
}

/// The idle ones among workspaces, with their positions.
proof fn lemma_idle_origins(
    state: StateView,
    workspaces: Seq<WorkspaceView>,
    count: nat,
) -> (origins: Seq<int>)
    requires
        count <= workspaces.len(),
    ensures
        origins.len() == idle_ids(state, workspaces, count).len(),
        forall|k: int, l: int|
            0 <= k < l < origins.len() ==> (#[trigger] origins[k]) < (#[trigger] origins[l]),
        forall|k: int|
            0 <= k < origins.len() ==> 0 <= #[trigger] origins[k] < count && idle_ids(
                state,
                workspaces,
                count,
            )[k] == workspaces[origins[k]].id,
        forall|i: int|
            0 <= i < count ==> (#[trigger] origins.contains(i) <==> is_idle(state, workspaces[i])),
    decreases count,
{
    if count == 0 {
        Seq::empty()
    } else {
        let last = count - 1;
        let rest = lemma_idle_origins(state, workspaces, last as nat);
        if is_idle(state, workspaces[last]) {
            lemma_pushed(rest, last);
            rest.push(last)
        } else {
            assert(!rest.contains(last));
            rest
        }
    }
}

/// What removing all idle workspaces changes.
pub proof fn lemma_idle_deactivated(state: StateView)
    requires
        state.is_valid(),
    ensures
        ({
            let (next, result) = idle_deactivated(state);
            &&& result is Ok
            &&& next.is_valid()
            &&& same_layout(state.monitors, next.monitors)
            &&& same_fronts(state.monitors, next.monitors)
            &&& next == (StateView { monitors: next.monitors, events: next.events, ..state })
            &&& keeps(state, next, 0)
            &&& forall|x: u128| #[trigger]
                found(next.monitors, x) == match found(state.monitors, x) {
                    Some((m, workspace)) => if is_idle(state, workspace) {
                        None
                    } else {
                        Some((m, workspace))
                    },
                    None => None,
                }
        }),
{
    let all = state.workspaces();
    let listed = members_of(all);
    let ids = idle_ids(state, all, all.len());
    let origins = lemma_idle_origins(state, all, all.len());
    lemma_is_listing(state);
    assert forall|i: int, j: int|
        0 <= i < ids.len() && 0 <= j < ids.len() && i != j implies ids[i] != ids[j] by {
        if i < j {
            assert(origins[i] < origins[j]);
            assert(listed[origins[i]].id != listed[origins[j]].id);
        } else {
            assert(origins[j] < origins[i]);
            assert(listed[origins[j]].id != listed[origins[i]].id);
        }
    }
    assert forall|k: int| 0 <= k < ids.len() implies !state.has_children(#[trigger] ids[k])
        && !state.is_displayed(ids[k]) && found(state.monitors, ids[k]) is Some by {
        let i = origins[k];
        assert(origins.contains(i));
        let (m, a) = lemma_attached_place(state.monitors, state.monitors.len(), i);
        lemma_found_at(state.monitors, m, a);
    }
    lemma_all_deactivated(state, ids, 0);
    let next = idle_deactivated(state).0;
    assert forall|x: u128| #[trigger] found(next.monitors, x) == match found(state.monitors, x) {
        Some((m, workspace)) => if is_idle(state, workspace) {
            None
        } else {
            Some((m, workspace))
        },
        None => None,
    } by {
        if exists|k: int| 0 <= k < ids.len() && #[trigger] ids[k] == x {
            let k = choose|k: int| 0 <= k < ids.len() && #[trigger] ids[k] == x;
            let i = origins[k];
            assert(origins.contains(i));
            let (m, a) = lemma_attached_place(state.monitors, state.monitors.len(), i);
            lemma_found_at(state.monitors, m, a);
        } else if found(state.monitors, x) is Some {
            let a = lemma_found_place(state.monitors, x);
            let (m, workspace) = found(state.monitors, x)->0;
            crate::state_laws::law_all_workspaces_are_listed(
                state.monitors,
                state.monitors.len(),
                m,
                a,
            );
            let i = attached(state.monitors, m as nat).len() + a;
            if is_idle(state, workspace) {
                assert(origins.contains(i));
                let k = choose|k: int| 0 <= k < origins.len() && origins[k] == i;
                assert(ids[k] == x);
            }
        }
    }
}

/// A page switch destroys exactly the workspaces that hold nothing, aren't displayed and aren't
/// kept alive. All others stay as they are.
pub proof fn law_idle_workspaces_are_destroyed(state: StateView, m: int, a: int)
    requires
        state.is_valid(),
        0 <= m < state.monitors.len(),
        0 <= a < state.monitors[m].workspaces.len(),
    ensures
        ({
            let (next, result) = idle_deactivated(state);
            let workspace = state.monitors[m].workspaces[a];
            let holds = exists|i: int|
                0 <= i < state.nodes.len() && (#[trigger] state.nodes[i]).workspace
                    == workspace.id;
            let is_shown = state.monitors[m].focus_order[0] == workspace.id;
            &&& result is Ok
            &&& next.nodes == state.nodes
            &&& next.focus_order == state.focus_order
            &&& next.monitors[m].focus_order[0] == state.monitors[m].focus_order[0]
            &&& found(next.monitors, workspace.id) == if !holds && !is_shown
                && !workspace.config.keep_alive {
                None
            } else {
                Some((m, workspace))
            }
        }),
{
    lemma_idle_deactivated(state);
    let workspace = state.monitors[m].workspaces[a];
    lemma_found_at(state.monitors, m, a);
    crate::state_laws::law_displayed_workspace_was_focused_last(state, m, a);
    assert(is_valid_monitor(state.monitors[m]));
    assert(state.monitors[m].focus_order.contains(workspace.id));
    assert(front(state.monitors[m]) is Some);
    let next = idle_deactivated(state).0;
    assert(front(next.monitors[m]) == front(state.monitors[m]));
    assert(found(next.monitors, workspace.id) == found(next.monitors, workspace.id));
}

/// Displaying a page on monitors keeps everything.
pub proof fn lemma_monitors_synced_keep(
    state: StateView,
    configs: Seq<WorkspaceConfigView>,
    order: Seq<u128>,
    count: nat,
    key: PageKeyView,
    focused_monitor: u128,
    changed: bool,
)
    requires
        state.is_valid(),
        count <= order.len(),
        state.next_id + count <= u128::MAX,
        key.page >= 1,
        monitors_synced(state, configs, order, count, key, focused_monitor, changed).1 is Ok,
    ensures
        keeps(
            state,
            monitors_synced(state, configs, order, count, key, focused_monitor, changed).0,
            count,
        ),
    decreases count,
{
    if count == 0 {
        lemma_keeps_itself(state);
    } else {
        let id = order[count - 1];
        let rest = (count - 1) as nat;
        lemma_monitor_position(state.monitors, id, 0);
        match monitor_position(state.monitors, id, 0) {
            None => {
                lemma_monitors_synced_keep(
                    state,
                    configs,
                    order,
                    rest,
                    key,
                    focused_monitor,
                    changed,
                );
                let next = monitors_synced(
                    state,
                    configs,
                    order,
                    rest,
                    key,
                    focused_monitor,
                    changed,
                ).0;
                lemma_keeps_more(state, next, rest, count);
            },
            Some(monitor) => {
                let (synced, result) = monitor_synced(
                    state,
                    configs,
                    monitor,
                    key,
                    focused_monitor,
                );
                law_page_is_displayed_on_monitor(state, configs, monitor, key, focused_monitor);
                lemma_kept_valid(state, synced, 1);
                let now = changed || result->Ok_0;
                lemma_monitors_synced_keep(
                    synced,
                    configs,
                    order,
                    rest,
                    key,
                    focused_monitor,
                    now,
                );
                let next = monitors_synced(
                    synced,
                    configs,
                    order,
                    rest,
                    key,
                    focused_monitor,
                    now,
                ).0;
                lemma_keeps_transitive(state, synced, next, 1, rest);
            },
        }
    }
}

/// The state in which a page is displayed on every monitor, before idle workspaces are destroyed.
pub open spec fn page_displayed(
    state: StateView,
    configs: Seq<WorkspaceConfigView>,
    key: PageKeyView,
) -> (StateView, Result<bool, WmErrorView>) {
    monitors_synced(
        state,
        configs,
        state.focus_order,
        state.focus_order.len(),
        key,
        state.monitors[state.focused_monitor()->0].id,
        false,
    )
}

/// After a switch to a page, every monitor displays the page, and focus is on the monitor that had
/// it, if the group is settled and the page is its first one, or if the instances that are
/// displayed are assigned their monitors and pages again in the end.
pub proof fn law_synced_page_is_displayed(
    state: StateView,
    configs: Seq<WorkspaceConfigView>,
    key: PageKeyView,
)
    requires
        state.is_valid(),
        placements_fit(state),
        state.next_id + state.focus_order.len() + state.monitors.len() <= usize::MAX,
        key.page >= 1,
        page_synced(state, configs, key).1 is Ok,
        is_settled_switch(state, configs, key) || is_reassigned(
            idle_deactivated(page_displayed(state, configs, key).0).0,
            configs,
            key,
        ),
    ensures
        forall|m: int|
            0 <= m < state.monitors.len() ==> displays_page(
                #[trigger] page_synced(state, configs, key).0.monitors[m],
                key,
            ),
        page_synced(state, configs, key).0.monitors.len() == state.monitors.len(),
        page_synced(state, configs, key).0.focused_monitor() == state.focused_monitor(),
{
    let (shown, showing) = page_displayed(state, configs, key);
    let order = state.focus_order;
    let focused = state.monitors[state.focused_monitor()->0].id;
    law_page_is_displayed_on_every_monitor(state, configs, key);
    lemma_monitors_synced_keep(state, configs, order, order.len(), key, focused, false);
    lemma_kept(state, shown, order.len());
    lemma_kept_valid(state, shown, order.len());
    if showing == Ok::<bool, WmErrorView>(true) {
        let tidied = idle_deactivated(shown).0;
        lemma_idle_deactivated(shown);
        lemma_kept(shown, tidied, 0);
        lemma_few_workspaces(tidied);
        assert(displays_page_everywhere(shown, key));
        lemma_fronts_are_displayed(shown, key);
        assert(fronts_show(tidied.monitors, key)) by {
            assert forall|n: int| 0 <= n < tidied.monitors.len() implies {
                let first = front(#[trigger] tidied.monitors[n]);
                &&& first is Some
                &&& is_instance(tidied.monitors, first->0, key.group)
                &&& host_of(tidied.monitors, first->0) == n
                &&& crate::repage_laws::value_of(
                    tidied.monitors,
                    first->0,
                ).config.page_key() == Some(key)
            } by {
                let x = front(shown.monitors[n])->0;
                assert(front(shown.monitors[n]) is Some);
                assert(front(tidied.monitors[n]) == front(shown.monitors[n]));
                assert(is_instance(shown.monitors, x, key.group));
                lemma_displayed_is_front(shown, x);
                let at = lemma_found_place(shown.monitors, x);
                assert(found(tidied.monitors, x) == found(shown.monitors, x));
            }
        }
        lemma_fronts_are_displayed(tidied, key);
        assert forall|m: int| 0 <= m < shown.monitors.len() implies (#[trigger] shown.monitors[m]).id
            == tidied.monitors[m].id by {
            assert(same_screen(shown.monitors[m], tidied.monitors[m]));
        }
        lemma_same_monitor_position(shown.monitors, tidied.monitors, 0);
        assert(tidied.focused_monitor() == shown.focused_monitor());
        if is_settled_switch(state, configs, key) {
            let group = key.group;
            assert(key == PageKeyView::first(group));
            if spanning_config(configs, group, 0) is Some {
                lemma_display_stays_settled(
                    state,
                    configs,
                    order,
                    order.len(),
                    group,
                    focused,
                    false,
                );
                assert forall|x: u128| #[trigger]
                    is_instance(tidied.monitors, x, group) implies found(tidied.monitors, x)
                    == found(shown.monitors, x) by {}
                lemma_stays_settled(shown.monitors, tidied.monitors, group);
            }
            law_repaging_keeps_first_page(tidied, configs, group);
        } else {
            law_repaging_keeps_page(tidied, configs, key);
        }
        assert(switches_to(tidied, repaged(tidied, configs).0, key));
        lemma_repaged_valid(tidied, configs);
    }
}

/// Distributing the instances of groups keeps the state valid.
pub proof fn lemma_groups_valid(
    state: StateView,
    listed: Seq<MemberView>,
    groups: Seq<WorkspaceConfigView>,
    from: int,
    changed: bool,
)
    requires
        state.is_valid(),
        placements_fit(state),
        is_listing(listed, state.monitors),
        0 < state.monitors.len() <= usize::MAX,
        listed.len() <= usize::MAX,
        0 <= from <= groups.len(),
        groups_repaged(state, listed, groups, from, changed).1 is Ok,
    ensures
        ({
            let last = groups_repaged(state, listed, groups, from, changed).0;
            &&& last.is_valid()
            &&& placements_fit(last)
            &&& same_frame(state, last)
        }),
    decreases groups.len() - from,
{
    if from == groups.len() {
        lemma_same_frame_itself(state);
    } else {
        let last = groups_repaged(state, listed, groups, from, changed).0;
        let (next, result) = group_repaged(state, listed, groups[from], changed);
        lemma_group_repaged(state, listed, groups[from], changed);
        assert(next.is_valid() && placements_fit(next) && same_frame(state, next) && is_listing(
            listed,
            next.monitors,
        )) by {
            reveal(is_pass);
        }
        lemma_groups_valid(next, listed, groups, from + 1, result->Ok_0);
        lemma_same_frame_transitive(state, next, last);
    }
}

/// Filling monitors keeps everything.
pub proof fn lemma_filling_keeps(
    state: StateView,
    configs: Seq<WorkspaceConfigView>,
    from: int,
    count: int,
    changed: bool,
)
    requires
        state.is_valid(),
        0 <= from <= count <= state.monitors.len(),
        state.next_id + (count - from) <= u128::MAX,
        monitors_filled(state, configs, from, count, changed).1 is Ok,
    ensures
        keeps(
            state,
            monitors_filled(state, configs, from, count, changed).0,
            (count - from) as nat,
        ),
    decreases count - from,
{
    if from == count {
        lemma_keeps_itself(state);
    } else {
        let is_empty = state.monitors[from].workspaces.len() == 0;
        let filled = if is_empty {
            crate::activate_workspace::default_activated(state, configs, from).0
        } else {
            state
        };
        if is_empty {
            let (config, is_home) = lemma_default_config(state, configs, from, Seq::empty());
            crate::activate_workspace::lemma_new_workspace_keeps(
                state,
                configs,
                config,
                from,
                is_home,
            );
        } else {
            lemma_keeps_itself(state);
        }
        assert(keeps(state, filled, 1));
        lemma_kept(state, filled, 1);
        lemma_kept_valid(state, filled, 1);
        let next = filled.sort(from, configs);
        lemma_sort_keeps(filled, from, configs);
        lemma_keeps_transitive(state, filled, next, 1, 0);
        lemma_kept(state, next, 1);
        lemma_kept_valid(state, next, 1);
        let rest = (count - from - 1) as nat;
        lemma_filling_keeps(next, configs, from + 1, count, changed || is_empty);
        lemma_keeps_transitive(
            state,
            next,
            monitors_filled(state, configs, from, count, changed).0,
            1,
            rest,
        );
    }
}

/// Distributing instances anew keeps the state valid.
pub proof fn lemma_repaged_valid(state: StateView, configs: Seq<WorkspaceConfigView>)
    requires
        state.is_valid(),
        placements_fit(state),
        state.next_id + state.monitors.len() <= usize::MAX,
        repaged(state, configs).1 is Ok,
    ensures
        ({
            let next = repaged(state, configs).0;
            &&& next.is_valid()
            &&& placements_fit(next)
            &&& same_layout(state.monitors, next.monitors)
            &&& next.next_id <= state.next_id + state.monitors.len()
            &&& next.focus_order.len() == state.focus_order.len()
        }),
{
    let next = repaged(state, configs).0;
    if state.monitors.len() == 0 {
        lemma_same_frame_itself(state);
    } else {
        let listed = members_of(state.workspaces());
        let groups = spanning_configs(configs, configs.len());
        let (paged, paging) = groups_repaged(state, listed, groups, 0, false);
        let count = state.monitors.len() as int;
        let filled = monitors_filled(paged, configs, 0, count, paging->Ok_0).0;
        lemma_is_listing(state);
        lemma_few_workspaces(state);
        lemma_groups_valid(state, listed, groups, 0, false);
        lemma_filling_keeps(paged, configs, 0, count, paging->Ok_0);
        lemma_kept(paged, filled, count as nat);
        lemma_kept_valid(paged, filled, count as nat);
        let last = refocused(filled, state.focused_container());
        lemma_keeps_itself(filled);
        if let Some(container) = state.focused_container() {
            lemma_focus_keeps(filled, container);
            let focus = filled.focus(container);
            lemma_unrelated_keeps(focus, focus.focus_change());
            lemma_keeps_transitive(filled, focus, focus.focus_change(), 0, 0);
        }
        assert(keeps(filled, last, 0));
        lemma_kept(filled, last, 0);
        lemma_kept_valid(filled, last, 0);
        assert forall|i: int| #![trigger state.monitors[i]] #![trigger next.monitors[i]]
            0 <= i < state.monitors.len() implies same_screen(
            state.monitors[i],
            next.monitors[i],
        ) by {
            assert(same_screen(state.monitors[i], paged.monitors[i]));
            assert(same_screen(paged.monitors[i], filled.monitors[i]));
            assert(same_screen(filled.monitors[i], last.monitors[i]));
        }
    }
}

/// Focusing the first page of a group displays it on every monitor, unless the page has focus
/// already and this leads back to the recent workspace. This takes that the group is settled, or
/// that no two of its instances have a home that matches the same monitor.
pub proof fn law_focused_first_page_is_displayed(
    state: StateView,
    configs: Seq<WorkspaceConfigView>,
    toggles: bool,
    group: Seq<char>,
    place: (int, int),
)
    requires
        state.is_valid(),
        placements_fit(state),
        state.next_id + page_cost(state) <= usize::MAX,
        state.focused_workspace() == Some(place),
        !toggles || state.monitors[place.0].workspaces[place.1].config.logical_name() != group,
        regular_configs_join_first_page(configs, group),
        homes_are_unrivalled(state.monitors, group) || is_settled(state.monitors, group),
        page_focused(state, configs, toggles, PageKeyView { group, page: 1 }).1 is Ok,
    ensures
        ({
            let key = PageKeyView { group, page: 1 };
            let next = page_focused(state, configs, toggles, key).0;
            next.monitors.len() == state.monitors.len() && forall|m: int|
                0 <= m < state.monitors.len() ==> displays_page(#[trigger] next.monitors[m], key)
        }),
{
    let key = PageKeyView { group, page: 1 };
    let paged = repaged(state, configs).0;
    let next = page_focused(state, configs, toggles, key).0;
    assert(key.label() == group);
    assert(toggle_name(state, toggles, key, place) is None);
    lemma_monitor_position(state.monitors, state.focus_order[0], 0);
    lemma_repaged_valid(state, configs);
    lemma_few_workspaces(state);
    if spanning_config(configs, group, 0) is Some {
        law_repaging_settles(state, configs, group);
    }
    assert(is_settled_switch(paged, configs, key));
    law_synced_page_is_displayed(paged, configs, key);
}

/// Focusing a page that no switch disturbs displays it on every monitor: if each instance that is
/// displayed is assigned its monitor and page again in the end.
pub proof fn law_focused_page_is_displayed(
    state: StateView,
    configs: Seq<WorkspaceConfigView>,
    toggles: bool,
    key: PageKeyView,
    place: (int, int),
)
    requires
        state.is_valid(),
        placements_fit(state),
        state.next_id + page_cost(state) <= usize::MAX,
        key.page >= 1,
        state.focused_workspace() == Some(place),
        !toggles || state.monitors[place.0].workspaces[place.1].config.logical_name()
            != key.label(),
        is_reassigned(
            idle_deactivated(page_displayed(repaged(state, configs).0, configs, key).0).0,
            configs,
            key,
        ),
        page_focused(state, configs, toggles, key).1 is Ok,
    ensures
        ({
            let next = page_focused(state, configs, toggles, key).0;
            next.monitors.len() == state.monitors.len() && forall|m: int|
                0 <= m < state.monitors.len() ==> displays_page(#[trigger] next.monitors[m], key)
        }),
{
    let paged = repaged(state, configs).0;
    assert(toggle_name(state, toggles, key, place) is None);
    lemma_repaged_valid(state, configs);
    law_synced_page_is_displayed(paged, configs, key);
}

/// Where focus came from is remembered by the name that leads back to it, whenever the switch
/// displays anything else.
pub proof fn law_origin_of_a_page_switch_is_remembered(
    state: StateView,
    configs: Seq<WorkspaceConfigView>,
    key: PageKeyView,
    place: (int, int),
)
    requires
        page_shown(state, configs, key, place).1 is Ok,
    ensures
        ({
            let next = page_shown(state, configs, key, place).0;
            let paged = repaged(state, configs).0;
            let (synced, result) = page_synced(paged, configs, key);
            let origin = state.monitors[place.0].workspaces[place.1].config.logical_name();
            &&& result == Ok::<bool, WmErrorView>(true) ==> next.pending_sync.needs_cursor_jump
                && next.recent_workspace_name == if origin != key.label() {
                Some(origin)
            } else {
                synced.recent_workspace_name
            }
            &&& result == Ok::<bool, WmErrorView>(false) ==> next == synced
            &&& next.monitors == synced.monitors
            &&& next.focus_order == synced.focus_order
            &&& next.nodes == synced.nodes
        }),
{
}

/// While a page has focus, focusing it again leads back to where focus came from, if that is asked
/// for and remembered: to the whole page if it was one.
pub proof fn law_refocusing_a_page_leads_back(
    state: StateView,
    configs: Seq<WorkspaceConfigView>,
    key: PageKeyView,
    place: (int, int),
    recent: Seq<char>,
)
    requires
        state.focused_workspace() == Some(place),
        state.monitors[place.0].workspaces[place.1].config.logical_name() == key.label(),
        state.recent_workspace_name == Some(recent),
        recent != key.label(),
    ensures
        state.resolve_target(configs, recent) matches Some(back) ==> page_focused(
            state,
            configs,
            true,
            key,
        ) == page_shown(state, configs, back, place),
        state.resolve_target(configs, recent) is None ==> page_focused(state, configs, true, key)
            == regular_focused(state, configs, true, WorkspaceTargetView::Name(recent), place),
        page_focused(state, configs, false, key) == page_shown(state, configs, key, place),
{
}

/// The instance of a page that a monitor displays is the one that was focused on it most recently.
/// Only a monitor without any gets a new one.
pub proof fn law_most_recent_instance_is_displayed(
    state: StateView,
    configs: Seq<WorkspaceConfigView>,
    m: int,
    key: PageKeyView,
    k: int,
    a: int,
)
    requires
        state.is_valid(),
        0 <= m < state.monitors.len(),
    ensures
        0 <= k < state.monitors[m].focus_order.len() && 0 <= a < state.monitors[m].workspaces.len()
            && state.monitors[m].workspaces[a].id == state.monitors[m].focus_order[k]
            && state.monitors[m].workspaces[a].config.page_key() == Some(key) && (forall|
            j: int,
            b: int,
        |
            0 <= j < k && 0 <= b < state.monitors[m].workspaces.len() && (
            #[trigger] state.monitors[m].workspaces[b]).id
                == #[trigger] state.monitors[m].focus_order[j]
                ==> state.monitors[m].workspaces[b].config.page_key() != Some(key))
            ==> with_page_instance(state, configs, m, key) == (
            state,
            Ok::<u128, WmErrorView>(state.monitors[m].workspaces[a].id),
        ),
        (forall|b: int|
            0 <= b < state.monitors[m].workspaces.len() ==> (
            #[trigger] state.monitors[m].workspaces[b]).config.page_key() != Some(key))
            ==> with_page_instance(state, configs, m, key)
            == crate::activate_workspace::spanning_activated(state, configs, key, m),
{
    let monitor = state.monitors[m];
    assert(is_valid_monitor(monitor));
    if 0 <= k < monitor.focus_order.len() && 0 <= a < monitor.workspaces.len()
        && monitor.workspaces[a].id == monitor.focus_order[k]
        && monitor.workspaces[a].config.page_key() == Some(key) && (forall|j: int, b: int|
        0 <= j < k && 0 <= b < state.monitors[m].workspaces.len() && (
        #[trigger] state.monitors[m].workspaces[b]).id
            == #[trigger] state.monitors[m].focus_order[j]
            ==> state.monitors[m].workspaces[b].config.page_key() != Some(key)) {
        lemma_first_instance(state, m, key, monitor.focus_order.len(), k, a);
    }
    if forall|b: int|
        0 <= b < state.monitors[m].workspaces.len() ==> (
        #[trigger] state.monitors[m].workspaces[b]).config.page_key() != Some(key) {
        lemma_no_instance(state, m, key, monitor.focus_order.len());
    }
}

proof fn lemma_first_instance(
    state: StateView,
    m: int,
    key: PageKeyView,
    count: nat,
    k: int,
    a: int,
)
    requires
        state.is_valid(),
        0 <= m < state.monitors.len(),
        0 <= k < state.monitors[m].focus_order.len(),
        count <= state.monitors[m].focus_order.len(),
        0 <= a < state.monitors[m].workspaces.len(),
        state.monitors[m].workspaces[a].id == state.monitors[m].focus_order[k],
        state.monitors[m].workspaces[a].config.page_key() == Some(key),
        forall|j: int, b: int|
            0 <= j < k && 0 <= b < state.monitors[m].workspaces.len() && (
            #[trigger] state.monitors[m].workspaces[b]).id
                == #[trigger] state.monitors[m].focus_order[j]
                ==> state.monitors[m].workspaces[b].config.page_key() != Some(key),
    ensures
        count <= k ==> page_instances(state.monitors[m], key, count).len() == 0,
        count > k ==> page_instances(state.monitors[m], key, count).len() > 0 && page_instances(
            state.monitors[m],
            key,
            count,
        )[0] == state.monitors[m].workspaces[a],
    decreases count,
{
    if count > 0 {
        lemma_first_instance(state, m, key, (count - 1) as nat, k, a);
        let monitor = state.monitors[m];
        lemma_workspace_position(monitor.workspaces, monitor.focus_order[count - 1], 0);
        if count - 1 == k {
            lemma_located_at(state.monitors, m, a);
        } else if let Some(b) = monitor.position(monitor.focus_order[count - 1]) {
            assert(state.monitors[m].workspaces[b].id == state.monitors[m].focus_order[count - 1]);
        }
    }
}

proof fn lemma_no_instance(state: StateView, m: int, key: PageKeyView, count: nat)
    requires
        0 <= m < state.monitors.len(),
        count <= state.monitors[m].focus_order.len(),
        forall|b: int|
            0 <= b < state.monitors[m].workspaces.len() ==> (
            #[trigger] state.monitors[m].workspaces[b]).config.page_key() != Some(key),
    ensures
        page_instances(state.monitors[m], key, count).len() == 0,
    decreases count,
{
    if count > 0 {
        lemma_no_instance(state, m, key, (count - 1) as nat);
        let monitor = state.monitors[m];
        lemma_workspace_position(monitor.workspaces, monitor.focus_order[count - 1], 0);
        if let Some(b) = monitor.position(monitor.focus_order[count - 1]) {
            assert(state.monitors[m].workspaces[b].config.page_key() != Some(key));
        }
    }
}

/// Displaying a page on a monitor reports whether the monitor displays another workspace than
/// before. If so, both are redrawn and announced. Native focus moves on the focused monitor only.
pub proof fn law_changed_display_is_reported(
    state: StateView,
    configs: Seq<WorkspaceConfigView>,
    m: int,
    key: PageKeyView,
    focused_monitor: u128,
)
    requires
        state.is_valid(),
        state.next_id < u128::MAX,
        0 <= m < state.monitors.len(),
        key.page >= 1,
        monitor_synced(state, configs, m, key, focused_monitor).1 is Ok,
    ensures
        ({
            let (next, result) = monitor_synced(state, configs, m, key, focused_monitor);
            let before = state.monitors[m].focus_order[0];
            let after = next.monitors[m].focus_order[0];
            let is_focused = state.monitors[m].id == focused_monitor;
            &&& result == Ok::<bool, WmErrorView>(before != after)
            &&& before != after ==> {
                let redrawn = next.pending_sync.containers_to_redraw;
                let count = next.events.len() as int;
                &&& redrawn.contains(before) && redrawn.contains(after)
                &&& count >= 2
                &&& next.events[count - 2] == (crate::wm_event::WmEventView::WorkspaceUpdated {
                    updated_workspace: before,
                })
                &&& next.events[count - 1] == (crate::wm_event::WmEventView::WorkspaceUpdated {
                    updated_workspace: after,
                })
            }
            &&& is_focused ==> next.pending_sync.needs_focus_update && next.focus_order[0]
                == focused_monitor
            &&& !is_focused ==> next.pending_sync.needs_focus_update
                == state.pending_sync.needs_focus_update
            &&& !is_focused && before == after ==> next == state
            &&& before == after ==> next.pending_sync.containers_to_redraw
                == state.pending_sync.containers_to_redraw
        }),
{
    let monitor = state.monitors[m];
    law_page_is_displayed_on_monitor(state, configs, m, key, focused_monitor);
    let at = monitor.displayed()->0;
    lemma_workspace_position(monitor.workspaces, monitor.focus_order[0], 0);
    let displayed = monitor.workspaces[at].id;
    assert(displayed == monitor.focus_order[0]);
    let (ready, result) = with_page_instance(state, configs, m, key);
    let instance = result->Ok_0;
    let next = monitor_synced(state, configs, m, key, focused_monitor).0;
    let spot = if page_instance(monitor, key) is Some {
        crate::page_display::lemma_page_instances(monitor, key, monitor.focus_order.len());
        let instances = page_instances(monitor, key, monitor.focus_order.len());
        choose|a: int|
            0 <= a < monitor.workspaces.len() && #[trigger] monitor.workspaces[a] == instances[0]
                && monitor.workspaces[a].config.page_key() == Some(key)
    } else {
        crate::page_display::lemma_new_instance(state, configs, key, m)
    };
    assert(ready.is_valid());
    assert(ready.monitors[m].workspaces[spot].id == instance);
    if page_instance(monitor, key) is None {
        assert(state.monitors[m].workspaces[at].id < state.next_id);
        assert(displayed != instance);
    }
    if displayed == instance && state.monitors[m].id != focused_monitor {
        assert(next == state);
    } else {
        crate::page_display::lemma_focus_displays(ready, m, spot);
        let shown = next.monitors[m];
        lemma_workspace_position(shown.workspaces, shown.focus_order[0], 0);
        assert(shown.displayed() == Some(spot));
        assert(shown.focus_order[0] == instance);
    }
}

} // verus!
