//! What focusing a page displays.
use vstd::prelude::*;

use crate::activate_workspace::{
    instance_config, lemma_new_workspace_keeps, new_instance_name, new_tiling_direction,
    spanning_activated,
};
use crate::focus_spanning_workspace::{
    monitor_synced, monitors_synced, page_instance, page_instances, switched, with_page_instance,
};
use crate::invariants::{
    is_valid_monitor, keeps, lemma_detach, lemma_focus_keeps, lemma_keeps_itself,
    lemma_keeps_transitive, lemma_kept, lemma_kept_valid, lemma_located_at, lemma_moved_to_front,
    lemma_recent_window, lemma_sorted_workspaces, lemma_unrelated_keeps,
};
use crate::monitor::{lemma_workspace_position, MonitorView};
use crate::monitor_identity::MonitorIdentityView;
use crate::page_key::PageKeyView;
use crate::untouched::{
    lemma_listed, lists_workspace, same_but_homes, same_monitor, same_workspaces, without_home,
};
use crate::user_config::spanning_config;
use crate::wm_state::{
    lemma_located, lemma_monitor_position, monitor_position, same_layout, StateView,
};
use crate::workspace::WorkspaceView;
use crate::workspace_config::WorkspaceConfigView;

verus! {

/// Whether a monitor displays an instance of a page.
pub open spec fn displays_page(monitor: MonitorView, key: PageKeyView) -> bool {
    match monitor.displayed() {
        Some(at) => monitor.workspaces[at].config.page_key() == Some(key),
        None => false,
    }
}

/// A focused workspace is displayed on its monitor, which gets focus. Other monitors stay as
/// they are.
pub proof fn lemma_focus_displays(state: StateView, m: int, a: int)
    requires
        state.is_valid(),
        0 <= m < state.monitors.len(),
        0 <= a < state.monitors[m].workspaces.len(),
    ensures
        ({
            let next = state.focus(state.container_to_focus(state.monitors[m].workspaces[a].id));
            &&& next.monitors.len() == state.monitors.len()
            &&& next.monitors[m].displayed() == Some(a)
            &&& next.monitors[m].workspaces == state.monitors[m].workspaces
            &&& next.focus_order.len() > 0
            &&& next.focus_order[0] == state.monitors[m].id
            &&& forall|n: int|
                0 <= n < state.monitors.len() && n != m ==> #[trigger] next.monitors[n]
                    == state.monitors[n]
        }),
{
    let id = state.monitors[m].workspaces[a].id;
    let container = state.container_to_focus(id);
    lemma_located_at(state.monitors, m, a);
    lemma_recent_window(state.window_focus_order, state.nodes, id, 0);
    assert(is_valid_monitor(state.monitors[m]));
    lemma_moved_to_front(state.monitors[m].focus_order, id);
    lemma_moved_to_front(state.focus_order, state.monitors[m].id);
    assert(state.monitors[m].focus_order.contains(state.monitors[m].workspaces[a].id));
}

/// An instance of a page that is found on a monitor is one of its workspaces.
pub proof fn lemma_page_instances(monitor: MonitorView, key: PageKeyView, count: nat)
    requires
        count <= monitor.focus_order.len(),
    ensures
        forall|k: int|
            0 <= k < page_instances(monitor, key, count).len() ==> exists|a: int|
                0 <= a < monitor.workspaces.len() && #[trigger] monitor.workspaces[a]
                    == #[trigger] page_instances(monitor, key, count)[k]
                    && monitor.workspaces[a].config.page_key() == Some(key),
    decreases count,
{
    if count > 0 {
        let rest = page_instances(monitor, key, (count - 1) as nat);
        let now = page_instances(monitor, key, count);
        lemma_page_instances(monitor, key, (count - 1) as nat);
        lemma_workspace_position(monitor.workspaces, monitor.focus_order[count - 1], 0);
        assert forall|k: int| 0 <= k < now.len() implies exists|a: int|
            0 <= a < monitor.workspaces.len() && #[trigger] monitor.workspaces[a]
                == #[trigger] now[k] && monitor.workspaces[a].config.page_key() == Some(key) by {
            if k < rest.len() {
                assert(now[k] == rest[k]);
                let a = choose|a: int|
                    0 <= a < monitor.workspaces.len() && #[trigger] monitor.workspaces[a]
                        == rest[k] && monitor.workspaces[a].config.page_key() == Some(key);
                assert(monitor.workspaces[a] == now[k]);
            } else {
                let a = monitor.position(monitor.focus_order[count - 1])->0;
                assert(monitor.workspaces[a] == now[k]);
            }
        }
    }
}

/// The config found for a group is the group's.
pub proof fn lemma_spanning_config(configs: Seq<WorkspaceConfigView>, name: Seq<char>, from: int)
    requires
        0 <= from,
    ensures
        spanning_config(configs, name, from) matches Some(config) ==> config.name == name,
    decreases configs.len() - from,
{
    if from < configs.len() {
        lemma_spanning_config(configs, name, from + 1);
    }
}

/// Where a new instance of a page is found.
pub proof fn lemma_new_instance(
    state: StateView,
    configs: Seq<WorkspaceConfigView>,
    key: PageKeyView,
    m: int,
) -> (a: int)
    requires
        state.is_valid(),
        state.next_id + 1 <= u128::MAX,
        0 <= m < state.monitors.len(),
        key.page >= 1,
        spanning_activated(state, configs, key, m).1 is Ok,
    ensures
        ({
            let next = spanning_activated(state, configs, key, m).0;
            &&& keeps(state, next, 1)
            &&& next.is_valid()
            &&& next.monitors.len() == state.monitors.len()
            &&& 0 <= a < next.monitors[m].workspaces.len()
            &&& next.monitors[m].workspaces[a].id == spanning_activated(
                state,
                configs,
                key,
                m,
            ).1->Ok_0
            &&& next.monitors[m].workspaces[a].config.page_key() == Some(key)
            &&& forall|n: int|
                0 <= n < state.monitors.len() && n != m ==> #[trigger] next.monitors[n]
                    == state.monitors[n]
        }),
{
    let next = spanning_activated(state, configs, key, m).0;
    let group = spanning_config(configs, key.group, 0)->0;
    lemma_spanning_config(configs, key.group, 0);
    let name = new_instance_name(state, configs, key, state.monitors[m].id);
    let config = instance_config(group, key, name);
    lemma_new_workspace_keeps(state, configs, config, m, true);
    lemma_kept_valid(state, next, 1);
    let created = WorkspaceView::created(
        state.next_id,
        config,
        new_tiling_direction(state.monitors[m]),
    );
    let workspace = WorkspaceView {
        home: Some(MonitorIdentityView::of(state.monitors, m)),
        ..created
    };
    let attached = state.monitors[m].attach(workspace);
    lemma_sorted_workspaces(configs, attached.workspaces);
    let sorted = next.monitors[m].workspaces;
    let last = attached.workspaces.len() - 1;
    assert(sorted.contains(attached.workspaces[last]));
    let a = choose|a: int| 0 <= a < sorted.len() && sorted[a] == attached.workspaces[last];
    a
}

/// Displaying a page on a monitor displays an instance of it there, and leaves the other
/// monitors as they are. The focused monitor gets focus.
pub proof fn law_page_is_displayed_on_monitor(
    state: StateView,
    configs: Seq<WorkspaceConfigView>,
    m: int,
    key: PageKeyView,
    focused_monitor: u128,
)
    requires
        state.is_valid(),
        state.next_id + 1 <= u128::MAX,
        0 <= m < state.monitors.len(),
        key.page >= 1,
        monitor_synced(state, configs, m, key, focused_monitor).1 is Ok,
    ensures
        ({
            let next = monitor_synced(state, configs, m, key, focused_monitor).0;
            &&& next.monitors.len() == state.monitors.len()
            &&& displays_page(next.monitors[m], key)
            &&& forall|n: int|
                0 <= n < state.monitors.len() && n != m ==> #[trigger] next.monitors[n]
                    == state.monitors[n]
            &&& state.monitors[m].id == focused_monitor ==> next.focus_order.len() > 0
                && next.focus_order[0] == focused_monitor
            &&& keeps(state, next, 1)
        }),
{
    let monitor = state.monitors[m];
    let displayed = monitor.workspaces[monitor.displayed()->0].id;
    let is_focused_monitor = monitor.id == focused_monitor;
    let (ready, found) = with_page_instance(state, configs, m, key);
    let instance = found->Ok_0;
    lemma_keeps_itself(state);
    lemma_workspace_position(monitor.workspaces, monitor.focus_order[0], 0);
    let a = match page_instance(monitor, key) {
        Some(workspace) => {
            lemma_page_instances(monitor, key, monitor.focus_order.len());
            let instances = page_instances(monitor, key, monitor.focus_order.len());
            let a = choose|a: int|
                0 <= a < monitor.workspaces.len() && #[trigger] monitor.workspaces[a]
                    == instances[0] && monitor.workspaces[a].config.page_key() == Some(key);
            a
        },
        None => lemma_new_instance(state, configs, key, m),
    };
    assert(ready.is_valid());
    assert(ready.monitors[m].workspaces[a].id == instance);
    if displayed == instance && !is_focused_monitor {
        if page_instance(monitor, key) is Some {
            assert(state.monitors[m].workspaces[monitor.displayed()->0].id
                == state.monitors[m].workspaces[a].id);
        } else {
            assert(state.monitors[m].workspaces[monitor.displayed()->0].id < state.next_id);
        }
    } else {
        let container = ready.container_to_focus(instance);
        let focused = ready.focus(container);
        let next = switched(ready, displayed, instance, is_focused_monitor);
        lemma_focus_displays(ready, m, a);
        lemma_focus_keeps(ready, container);
        lemma_keeps_transitive(state, ready, focused, 1, 0);
        lemma_unrelated_keeps(focused, next);
        lemma_keeps_transitive(state, focused, next, 1, 0);
        lemma_kept(state, ready, 1);
    }
}

/// Whether one of the first `count` identifiers is the given one.
spec fn is_among(order: Seq<u128>, count: nat, id: u128) -> bool {
    exists|k: int| 0 <= k < count && k < order.len() && order[k] == id
}

proof fn lemma_monitors_synced(
    state: StateView,
    configs: Seq<WorkspaceConfigView>,
    order: Seq<u128>,
    count: nat,
    key: PageKeyView,
    focused_monitor: u128,
    changed: bool,
)
    requires
        state.is_valid(),
        count <= order.len(),
        state.next_id + count <= u128::MAX,
        key.page >= 1,
        monitors_synced(state, configs, order, count, key, focused_monitor, changed).1 is Ok,
    ensures
        ({
            let next = monitors_synced(
                state,
                configs,
                order,
                count,
                key,
                focused_monitor,
                changed,
            ).0;
            &&& same_layout(state.monitors, next.monitors)
            &&& forall|m: int|
                0 <= m < state.monitors.len() && (displays_page(state.monitors[m], key)
                    || is_among(order, count, state.monitors[m].id)) ==> displays_page(
                    #[trigger] next.monitors[m],
                    key,
                )
            &&& count > 0 && order[0] == focused_monitor && monitor_position(
                state.monitors,
                focused_monitor,
                0,
            ) is Some ==> next.focus_order.len() > 0 && next.focus_order[0] == focused_monitor
        }),
    decreases count,
{
    let next = monitors_synced(state, configs, order, count, key, focused_monitor, changed).0;
    if count > 0 {
        let id = order[count - 1];
        lemma_monitor_position(state.monitors, id, 0);
        match monitor_position(state.monitors, id, 0) {
            None => {
                lemma_monitors_synced(
                    state,
                    configs,
                    order,
                    (count - 1) as nat,
                    key,
                    focused_monitor,
                    changed,
                );
                assert forall|m: int|
                    0 <= m < state.monitors.len() && (displays_page(state.monitors[m], key)
                        || is_among(order, count, state.monitors[m].id)) implies displays_page(
                    #[trigger] next.monitors[m],
                    key,
                ) by {
                    if is_among(order, count, state.monitors[m].id) {
                        let k = choose|k: int|
                            0 <= k < count && k < order.len() && order[k] == state.monitors[m].id;
                        if k == count - 1 {
                            crate::page_stability::lemma_monitor_position_exact(
                                state.monitors,
                                m,
                                0,
                            );
                        }
                        assert(is_among(order, (count - 1) as nat, state.monitors[m].id));
                    }
                }
            },
            Some(monitor) => {
                let (synced, result) = monitor_synced(
                    state,
                    configs,
                    monitor,
                    key,
                    focused_monitor,
                );
                law_page_is_displayed_on_monitor(state, configs, monitor, key, focused_monitor);
                lemma_kept(state, synced, 1);
                lemma_kept_valid(state, synced, 1);
                let changed_now = changed || result->Ok_0;
                lemma_monitors_synced(
                    synced,
                    configs,
                    order,
                    (count - 1) as nat,
                    key,
                    focused_monitor,
                    changed_now,
                );
                assert forall|m: int| #![trigger state.monitors[m]] #![trigger next.monitors[m]]
                    0 <= m < state.monitors.len() implies crate::wm_state::same_screen(
                    state.monitors[m],
                    next.monitors[m],
                ) by {
                    assert(crate::wm_state::same_screen(state.monitors[m], synced.monitors[m]));
                    assert(crate::wm_state::same_screen(synced.monitors[m], next.monitors[m]));
                }
                assert forall|m: int|
                    0 <= m < state.monitors.len() && (displays_page(state.monitors[m], key)
                        || is_among(order, count, state.monitors[m].id)) implies displays_page(
                    #[trigger] next.monitors[m],
                    key,
                ) by {
                    assert(crate::wm_state::same_screen(state.monitors[m], synced.monitors[m]));
                    if m != monitor && is_among(order, count, state.monitors[m].id) {
                        let k = choose|k: int|
                            0 <= k < count && k < order.len() && order[k] == state.monitors[m].id;
                        if k == count - 1 {
                            crate::page_stability::lemma_monitor_position_exact(
                                state.monitors,
                                m,
                                0,
                            );
                        }
                        assert(is_among(order, (count - 1) as nat, synced.monitors[m].id));
                    }
                }
                if order[0] == focused_monitor && count > 1 {
                    crate::invariants::lemma_same_monitor_position(
                        state.monitors,
                        synced.monitors,
                        0,
                    );
                    assert(monitor_position(synced.monitors, focused_monitor, 0)
                        == monitor_position(state.monitors, focused_monitor, 0));
                }
            },
        }
    }
}

/// Displaying a page on all monitors displays an instance of it on each, and leaves focus on
/// the monitor that has it.
pub proof fn law_page_is_displayed_on_every_monitor(
    state: StateView,
    configs: Seq<WorkspaceConfigView>,
    key: PageKeyView,
)
    requires
        state.is_valid(),
        state.next_id + state.focus_order.len() <= u128::MAX,
        key.page >= 1,
        state.focused_monitor() is Some,
        monitors_synced(
            state,
            configs,
            state.focus_order,
            state.focus_order.len(),
            key,
            state.monitors[state.focused_monitor()->0].id,
            false,
        ).1 is Ok,
    ensures
        ({
            let next = monitors_synced(
                state,
                configs,
                state.focus_order,
                state.focus_order.len(),
                key,
                state.monitors[state.focused_monitor()->0].id,
                false,
            ).0;
            &&& next.monitors.len() == state.monitors.len()
            &&& forall|m: int|
                0 <= m < next.monitors.len() ==> displays_page(#[trigger] next.monitors[m], key)
            &&& next.focused_monitor() == state.focused_monitor()
        }),
{
    let order = state.focus_order;
    let focused = state.focused_monitor()->0;
    let focused_monitor = state.monitors[focused].id;
    lemma_monitor_position(state.monitors, order[0], 0);
    lemma_monitors_synced(state, configs, order, order.len(), key, focused_monitor, false);
    let next = monitors_synced(
        state,
        configs,
        order,
        order.len(),
        key,
        focused_monitor,
        false,
    ).0;
    assert forall|m: int| 0 <= m < next.monitors.len() implies displays_page(
        #[trigger] next.monitors[m],
        key,
    ) by {
        assert(order.contains(state.monitors[m].id));
        assert(is_among(order, order.len(), state.monitors[m].id));
    }
    crate::invariants::lemma_same_monitor_position(state.monitors, next.monitors, 0);
}

/// Whether every monitor displays an instance of a page.
pub open spec fn displays_page_everywhere(state: StateView, key: PageKeyView) -> bool {
    forall|m: int|
        0 <= m < state.monitors.len() ==> displays_page(#[trigger] state.monitors[m], key)
}

/// Removing a workspace that isn't displayed leaves pages displayed.
pub proof fn lemma_deactivate_keeps_page(state: StateView, id: u128, key: PageKeyView)
    requires
        state.is_valid(),
        !state.is_displayed(id),
        displays_page_everywhere(state, key),
    ensures
        displays_page_everywhere(state.deactivate(id).0, key),
{
    lemma_located(state.monitors, id, 0);
    if let Some(place) = state.locate(id) {
        let next = state.deactivate(id).0;
        let (n, at) = place;
        lemma_detach(state, place);
        assert forall|m: int| 0 <= m < next.monitors.len() implies displays_page(
            #[trigger] next.monitors[m],
            key,
        ) by {
            assert(displays_page(state.monitors[m], key));
            if m == n {
                let old = state.monitors[n];
                let new = next.monitors[n];
                let shown = old.displayed()->0;
                let first = old.focus_order[0];
                lemma_workspace_position(old.workspaces, first, 0);
                assert(first != id);
                crate::focus_order::lemma_id_position(old.focus_order, id, 0);
                assert(new == state.detach(place).monitors[n]);
                assert(is_valid_monitor(new));
                assert(new.focus_order[0] == first);
                assert(new.position(new.focus_order[0]) is Some);
                lemma_workspace_position(new.workspaces, first, 0);
                let now = new.displayed()->0;
                let before = if now < at {
                    now
                } else {
                    now + 1
                };
                assert(new.workspaces[now] == old.workspaces[before]);
                assert(state.monitors[n].workspaces[before].id
                    == state.monitors[n].workspaces[shown].id);
            }
        }
    }
}

/// Reordering workspaces and refreshing homes leaves pages displayed.
pub proof fn lemma_same_but_homes_keeps_page(a: StateView, b: StateView, key: PageKeyView)
    requires
        b.is_valid(),
        same_but_homes(a, b),
        displays_page_everywhere(a, key),
    ensures
        displays_page_everywhere(b, key),
{
    reveal(same_but_homes);
    assert forall|m: int| 0 <= m < b.monitors.len() implies displays_page(
        #[trigger] b.monitors[m],
        key,
    ) by {
        let (x, y) = (a.monitors[m], b.monitors[m]);
        assert(displays_page(x, key));
        assert(same_monitor(x, y));
        let first = x.focus_order[0];
        let shown = x.displayed()->0;
        lemma_workspace_position(x.workspaces, first, 0);
        reveal(same_workspaces);
        assert(lists_workspace(y.workspaces, x.workspaces[shown]));
        let j = lemma_listed(y.workspaces, x.workspaces[shown]);
        assert(without_home(y.workspaces[j]).id == first);
        assert(without_home(y.workspaces[j]).config == x.workspaces[shown].config);
        lemma_located_at(b.monitors, m, j);
        assert(y.displayed() == Some(j));
    }
}

} // verus!
