//! The first page of a group, once displayed on every monitor, stays displayed.
use vstd::prelude::*;

use crate::activate_workspace::{default_activated, instance_config, new_instance_name};
use crate::first_page_placement::{
    first_page_is_full, home_at_most, hosts_first_page, is_away, lemma_first_page_stays,
};
use crate::focus_spanning_workspace::{
    monitor_synced, monitors_synced, page_instance, page_instances, with_page_instance,
};
use crate::invariants::{is_valid_monitor, lemma_kept, lemma_kept_valid, placements_fit};
use crate::monitor::{lemma_workspace_position, MonitorView};
use crate::monitor_identity::MonitorIdentityView;
use crate::packing_laws::{
    is_named, lemma_default_config, lemma_focus_found, lemma_is_listing, lemma_refocused_found,
    lemma_same_instances_transitive, lemma_spanning_config_at, regular_configs_join_first_page,
};
use crate::page_display::{
    displays_page_everywhere, law_page_is_displayed_on_monitor, lemma_spanning_config,
};
use crate::page_keeping::{
    are_reassigned, fronts_show, keeps_slots, law_repaging_keeps_page, lemma_fronts_are_displayed,
    lemma_layout_transitive, lemma_other_pass_keeps_fronts, lemma_pass_keeps_fronts, switches_to,
};
use crate::page_key::PageKeyView;
use crate::page_placement::{host_position, page_placements, PagePlacement};
use crate::page_stability::lemma_placement_of;
use crate::repage_laws::{
    gathered_state, group_instances, group_plan, host_of, is_front, is_instance, is_listing,
    is_pass, is_placed_by, is_plan, lemma_group_repaged, lemma_other_group_stays,
    lemma_same_frame_itself, lemma_same_frame_transitive, others_stay, same_frame, same_instances,
    value_of,
};
use crate::repage_spanning_desktops::{
    group_repaged, groups_repaged, members_of, monitors_filled, refocused, repaged, MemberView,
};
use crate::settled_homes::{
    fills_first_page, has_first_page, home_of, homes_are_unrivalled, is_settled,
    lemma_away_of_layout, lemma_pass_host, lemma_pass_settles, lemma_settled_tidy,
    lemma_stays_settled, lemma_still_fills, lemma_still_unrivalled, page_of,
};
use crate::user_config::{spanning_config, spanning_configs};
use crate::wm_state::{lemma_monitor_position, monitor_position, same_layout, StateView};
use crate::workspace::WorkspaceView;
use crate::workspace_config::WorkspaceConfigView;
use crate::workspace_map::{
    found, front, lemma_deactivate_found, lemma_found_place, lemma_identity_of_layout,
    lemma_new_workspace_found, lemma_sort_found, same_but,
};

verus! {

/// Distributing all groups settles a group of which no two homes match the same monitor, and
/// keeps it settled.
proof fn lemma_groups_settle(
    state: StateView,
    listed: Seq<MemberView>,
    groups: Seq<WorkspaceConfigView>,
    from: int,
    changed: bool,
    group: Seq<char>,
)
    requires
        state.is_valid(),
        placements_fit(state),
        is_listing(listed, state.monitors),
        0 < state.monitors.len() <= usize::MAX,
        listed.len() <= usize::MAX,
        0 <= from <= groups.len(),
        groups_repaged(state, listed, groups, from, changed).1 is Ok,
        homes_are_unrivalled(state.monitors, group) || is_settled(state.monitors, group),
    ensures
        ({
            let last = groups_repaged(state, listed, groups, from, changed).0;
            &&& last.is_valid()
            &&& same_frame(state, last)
            &&& is_named(groups, from, group) ==> is_settled(last.monitors, group)
                && fills_first_page(last.monitors, group)
            &&& !is_named(groups, from, group) ==> same_instances(
                state.monitors,
                last.monitors,
                group,
            )
        }),
    decreases groups.len() - from,
{
    let last = groups_repaged(state, listed, groups, from, changed).0;
    if from == groups.len() {
        lemma_same_frame_itself(state);
    } else {
        let name = groups[from].name;
        let (next, result) = group_repaged(state, listed, groups[from], changed);
        lemma_group_repaged(state, listed, groups[from], changed);
        let middle = gathered_state(state, listed, name).monitors;
        let instances = group_instances(state, listed, name);
        let plan = group_plan(state, listed, name);
        assert(next.is_valid() && placements_fit(next) && same_frame(state, next) && is_listing(
            listed,
            next.monitors,
        )) by {
            reveal(is_pass);
        }
        if name == group {
            assert(groups[from].name == group);
            lemma_pass_settles(state, next, listed, name, middle, instances, plan);
        } else {
            lemma_other_group_stays(state, next, listed, name, middle, instances, plan, group);
            if is_settled(state.monitors, group) {
                lemma_same_stays_settled(state.monitors, next.monitors, group);
            } else {
                lemma_still_unrivalled(state.monitors, next.monitors, group);
            }
        }
        lemma_groups_settle(next, listed, groups, from + 1, result->Ok_0, group);
        lemma_same_frame_transitive(state, next, last);
        if is_named(groups, from + 1, group) {
            let i = choose|i: int|
                from + 1 <= i < groups.len() && (#[trigger] groups[i]).name == group;
            assert(is_named(groups, from, group));
        } else if name == group {
            lemma_same_stays_settled(next.monitors, last.monitors, group);
            lemma_still_fills(next.monitors, last.monitors, group);
        } else {
            if is_named(groups, from, group) {
                let i = choose|i: int|
                    from <= i < groups.len() && (#[trigger] groups[i]).name == group;
                assert(i > from);
            }
            lemma_same_instances_transitive(state.monitors, next.monitors, last.monitors, group);
        }
    }
}

/// A group stays settled as long as its instances are the same.
proof fn lemma_same_stays_settled(a: Seq<MonitorView>, b: Seq<MonitorView>, group: Seq<char>)
    requires
        is_settled(a, group),
        same_layout(a, b),
        same_instances(a, b, group),
    ensures
        is_settled(b, group),
{
    assert forall|x: u128| #[trigger] is_instance(b, x, group) implies found(b, x) == found(
        a,
        x,
    ) by {}
    lemma_stays_settled(a, b, group);
}

/// A group stays settled when it gets an instance on the first page of a monitor without one.
proof fn lemma_new_stays_settled(
    a: Seq<MonitorView>,
    b: Seq<MonitorView>,
    group: Seq<char>,
    id: u128,
    n: int,
)
    requires
        is_settled(a, group),
        same_layout(a, b),
        found(a, id) is None,
        same_but(a, b, id),
        0 <= n < a.len(),
        is_instance(b, id, group) ==> host_of(b, id) == n && page_of(b, id) == 1 && (home_of(
            b,
            id,
        ) is None || home_of(b, id) == Some(MonitorIdentityView::of(a, n))) && !has_first_page(
            a,
            group,
            n,
        ),
    ensures
        is_settled(b, group),
        fills_first_page(a, group) ==> fills_first_page(b, group),
{
    assert forall|x: u128| x != id implies is_instance(b, x, group) == #[trigger] is_instance(
        a,
        x,
        group,
    ) && page_of(b, x) == page_of(a, x) && home_of(b, x) == home_of(a, x) && host_of(b, x)
        == host_of(a, x) by {
        assert(found(b, x) == found(a, x));
    }
    assert(!is_instance(a, id, group));
    lemma_identity_of_layout(a, b, n);
    assert forall|x: u128| #[trigger] is_instance(b, x, group) && x != id implies is_away_alike(
        a,
        b,
        x,
    ) by {
        let at = lemma_found_place(b, x);
        lemma_away_of_layout(a, b, home_of(a, x));
        lemma_identity_of_layout(a, b, host_of(a, x));
    }
    assert(!is_away(Some(MonitorIdentityView::of(a, n)), b)) by {
        let home = MonitorIdentityView::of(b, n);
        assert(home.matches(b, n) is Some);
    }
    assert(is_settled(b, group)) by {
        reveal(is_settled);
        assert forall|x: u128, y: u128|
            x != y && #[trigger] is_instance(b, x, group) && #[trigger] is_instance(b, y, group)
                && page_of(b, x) == 1 && page_of(b, y) == 1 implies host_of(b, x) != host_of(
            b,
            y,
        ) by {
            if x == id {
                assert(is_instance(a, y, group));
            } else if y == id {
                assert(is_instance(a, x, group));
            } else {
                assert(is_instance(a, x, group) && is_instance(a, y, group));
            }
        }
        assert forall|x: u128| #[trigger] is_instance(b, x, group) implies {
            let home = home_of(b, x);
            &&& page_of(b, x) >= 1
            &&& page_of(b, x) == 1 ==> home is None || is_away(home, b) || home == Some(
                MonitorIdentityView::of(b, host_of(b, x)),
            )
            &&& page_of(b, x) > 1 ==> home is None || is_away(home, b)
        } by {
            if x != id {
                assert(is_instance(a, x, group));
                assert(is_away_alike(a, b, x));
            }
        }
        assert forall|x: u128, y: u128|
            x != y && #[trigger] is_instance(b, x, group) && #[trigger] is_instance(b, y, group)
                && page_of(b, x) == 1 && is_away(home_of(b, x), b) && (page_of(b, y) > 1
                || page_of(b, y) == 1 && is_away(home_of(b, y), b) && host_of(b, x) < host_of(
                b,
                y,
            )) implies home_at_most(home_of(b, x), home_of(b, y)) by {
            assert(x != id && y != id);
            assert(is_instance(a, x, group) && is_instance(a, y, group));
            assert(is_away_alike(a, b, x) && is_away_alike(a, b, y));
        }
    }
    if fills_first_page(a, group) {
        reveal(fills_first_page);
        assert forall|x: u128, m: int| #[trigger]
            is_instance(b, x, group) && page_of(b, x) > 1 && 0 <= m < b.len() implies
            #[trigger] has_first_page(b, group, m) by {
            assert(x != id);
            assert(is_instance(a, x, group));
            assert(has_first_page(a, group, m));
            let y = choose|y: u128| #[trigger]
                is_instance(a, y, group) && host_of(a, y) == m && page_of(a, y) == 1;
            assert(is_instance(b, y, group));
        }
    }
}

/// Whether the home of an instance is the same, and as far away, in two states.
spec fn is_away_alike(a: Seq<MonitorView>, b: Seq<MonitorView>, x: u128) -> bool {
    &&& is_away(home_of(b, x), b) == is_away(home_of(a, x), a)
    &&& MonitorIdentityView::of(a, host_of(a, x)) == MonitorIdentityView::of(b, host_of(b, x))
}

/// Filling monitors that have no workspaces keeps a group settled.
proof fn lemma_filling_stays_settled(
    state: StateView,
    configs: Seq<WorkspaceConfigView>,
    from: int,
    count: int,
    changed: bool,
    group: Seq<char>,
)
    requires
        state.is_valid(),
        0 <= from <= count <= state.monitors.len(),
        state.next_id + (count - from) <= u128::MAX,
        regular_configs_join_first_page(configs, group),
        monitors_filled(state, configs, from, count, changed).1 is Ok,
        is_settled(state.monitors, group),
        fills_first_page(state.monitors, group),
    ensures
        monitors_filled(state, configs, from, count, changed).0.is_valid(),
        same_layout(
            state.monitors,
            monitors_filled(state, configs, from, count, changed).0.monitors,
        ),
        is_settled(monitors_filled(state, configs, from, count, changed).0.monitors, group),
    decreases count - from,
{
    if from < count {
        let filled = if state.monitors[from].workspaces.len() == 0 {
            let (config, is_home) = lemma_default_config(state, configs, from, group);
            let filled = default_activated(state, configs, from).0;
            lemma_new_workspace_found(state, configs, config, from, is_home);
            let a = state.monitors;
            let id = state.next_id;
            assert(!has_first_page(a, group, from)) by {
                if has_first_page(a, group, from) {
                    let y = choose|y: u128| #[trigger]
                        is_instance(a, y, group) && host_of(a, y) == from && page_of(a, y) == 1;
                    let at = lemma_found_place(a, y);
                }
            }
            if is_instance(filled.monitors, id, group) {
                assert(config.spanning_group == Some(group));
                if config.spanning_page > 1 {
                    let x = choose|x: u128| #[trigger]
                        is_instance(a, x, group) && value_of(a, x).config.spanning_page
                            == config.spanning_page;
                    reveal(fills_first_page);
                    assert(page_of(a, x) > 1);
                    assert(has_first_page(a, group, from));
                }
            }
            lemma_new_stays_settled(a, filled.monitors, group, id, from);
            filled
        } else {
            state
        };
        let next = filled.sort(from, configs);
        lemma_sort_found(filled, from, configs);
        lemma_same_stays_settled(filled.monitors, next.monitors, group);
        lemma_still_fills(filled.monitors, next.monitors, group);
        let now = changed || state.monitors[from].workspaces.len() == 0;
        lemma_filling_stays_settled(next, configs, from + 1, count, now, group);
        let last = monitors_filled(state, configs, from, count, changed).0;
        lemma_layout_transitive(state.monitors, filled.monitors, next.monitors);
        lemma_layout_transitive(state.monitors, next.monitors, last.monitors);
    }
}

/// Distributing instances anew settles a declared group of which no two homes match the same
/// monitor, and keeps it settled.
pub proof fn law_repaging_settles(
    state: StateView,
    configs: Seq<WorkspaceConfigView>,
    group: Seq<char>,
)
    requires
        state.is_valid(),
        placements_fit(state),
        0 < state.monitors.len() <= usize::MAX,
        state.workspaces().len() <= usize::MAX,
        state.next_id + state.monitors.len() <= u128::MAX,
        regular_configs_join_first_page(configs, group),
        spanning_config(configs, group, 0) is Some,
        homes_are_unrivalled(state.monitors, group) || is_settled(state.monitors, group),
        repaged(state, configs).1 is Ok,
    ensures
        is_settled(repaged(state, configs).0.monitors, group),
{
    let listed = members_of(state.workspaces());
    let groups = spanning_configs(configs, configs.len());
    let (paged, paging) = groups_repaged(state, listed, groups, 0, false);
    lemma_is_listing(state);
    let count = state.monitors.len() as int;
    let filled = monitors_filled(paged, configs, 0, count, paging->Ok_0).0;
    let last = refocused(filled, state.focused_container());
    lemma_groups_settle(state, listed, groups, 0, false, group);
    lemma_spanning_config_at(configs, group, 0);
    lemma_filling_stays_settled(paged, configs, 0, count, paging->Ok_0, group);
    lemma_refocused_found(filled, state.focused_container());
    lemma_same_stays_settled(filled.monitors, last.monitors, group);
}

/// The instances of a settled group on a full first page are assigned their slots again.
proof fn lemma_settled_keeps_slots(
    state: StateView,
    next: StateView,
    listed: Seq<MemberView>,
    group: Seq<char>,
    middle: Seq<MonitorView>,
    instances: Seq<WorkspaceView>,
    plan: Seq<PagePlacement>,
)
    requires
        state.is_valid(),
        is_pass(state, next, listed, group, middle, instances, plan),
        is_settled(state.monitors, group),
        fronts_show(state.monitors, PageKeyView::first(group)),
    ensures
        keeps_slots(state.monitors, plan, PageKeyView::first(group)),
{
    let a = state.monitors;
    lemma_settled_tidy(state, next, listed, group, middle, instances, plan);
    assert(instances.len() <= usize::MAX && 0 < middle.len() <= usize::MAX && plan
        == page_placements(instances, middle) && middle.len() == a.len() && is_plan(
        middle.len(),
        instances,
        plan,
    ) && others_stay(a, next.monitors, group, plan)) by {
        reveal(is_pass);
    }
    // Each front is placed, and is on the first page of its monitor.
    assert forall|n: int| 0 <= n < a.len() implies is_placed_by(
        plan,
        0,
        front(#[trigger] a[n])->0,
    ) by {
        reveal(others_stay);
        assert(is_front(a, front(a[n])->0));
    }
    assert forall|n: int, k: int|
        0 <= n < a.len() && 0 <= k < plan.len() && Some((#[trigger] plan[k]).workspace) == front(
            #[trigger] a[n],
        ) implies {
        let instance = instances[plan[k].instance as int];
        &&& plan[k].instance < instances.len()
        &&& host_position(instance, middle) == Some(n)
        &&& instance.config.spanning_page == 1
    } by {
        reveal(is_plan);
        let i = plan[k].instance as int;
        lemma_pass_host(state, next, listed, group, middle, instances, plan, i);
        reveal(is_settled);
        assert(is_instance(a, front(a[n])->0, group));
    }
    assert(first_page_is_full(instances, middle)) by {
        assert forall|m: int| 0 <= m < middle.len() implies #[trigger] hosts_first_page(
            instances,
            middle,
            m,
        ) by {
            let x = front(a[m])->0;
            assert(is_placed_by(plan, 0, x));
            let k = choose|k: int| 0 <= k < plan.len() && (#[trigger] plan[k]).workspace == x;
            let i = plan[k].instance as int;
            assert(host_position(instances[i], middle) == Some(m));
        }
    }
    assert forall|n: int, k: int|
        0 <= n < a.len() && 0 <= k < plan.len() && Some((#[trigger] plan[k]).workspace) == front(
            #[trigger] a[n],
        ) implies plan[k].monitor == n && plan[k].page == 1 by {
        let i = plan[k].instance as int;
        assert(host_position(instances[i], middle) == Some(n));
        lemma_first_page_stays(instances, middle, i, n);
        assert(plan.len() == instances.len()) by {
            reveal(is_plan);
        }
        lemma_placement_of(instances, middle, k);
    }
}

/// The displayed instances of a settled group are assigned their slots again, whenever the group
/// is distributed.
proof fn lemma_settled_is_reassigned(
    state: StateView,
    listed: Seq<MemberView>,
    groups: Seq<WorkspaceConfigView>,
    from: int,
    changed: bool,
    group: Seq<char>,
)
    requires
        state.is_valid(),
        placements_fit(state),
        is_listing(listed, state.monitors),
        0 < state.monitors.len() <= usize::MAX,
        listed.len() <= usize::MAX,
        0 <= from <= groups.len(),
        is_named(groups, from, group) ==> is_settled(state.monitors, group),
        fronts_show(state.monitors, PageKeyView::first(group)),
    ensures
        are_reassigned(state, listed, groups, from, changed, PageKeyView::first(group)),
    decreases groups.len() - from,
{
    let key = PageKeyView::first(group);
    if from < groups.len() {
        let name = groups[from].name;
        let (next, result) = group_repaged(state, listed, groups[from], changed);
        if name == group {
            assert(groups[from].name == group);
        }
        let middle = gathered_state(state, listed, name).monitors;
        let instances = group_instances(state, listed, name);
        let plan = group_plan(state, listed, name);
        if result is Ok {
            lemma_group_repaged(state, listed, groups[from], changed);
            assert(next.is_valid() && placements_fit(next) && same_frame(state, next)
                && is_listing(listed, next.monitors)) by {
                reveal(is_pass);
            }
            if name == group {
                lemma_pass_settles(state, next, listed, name, middle, instances, plan);
                lemma_settled_keeps_slots(state, next, listed, name, middle, instances, plan);
                lemma_pass_keeps_fronts(state, next, listed, middle, instances, plan, key);
            } else {
                lemma_other_pass_keeps_fronts(
                    state,
                    next,
                    listed,
                    name,
                    middle,
                    instances,
                    plan,
                    key,
                );
                if is_named(groups, from, group) {
                    lemma_other_group_stays(
                        state,
                        next,
                        listed,
                        name,
                        middle,
                        instances,
                        plan,
                        group,
                    );
                    lemma_same_stays_settled(state.monitors, next.monitors, group);
                }
            }
            if is_named(groups, from + 1, group) {
                let i = choose|i: int|
                    from + 1 <= i < groups.len() && (#[trigger] groups[i]).name == group;
                assert(is_named(groups, from, group));
            }
            lemma_settled_is_reassigned(next, listed, groups, from + 1, result->Ok_0, group);
        }
    }
}

/// A first page that every monitor displays stays displayed when instances are distributed anew,
/// if its group is settled or not declared. The monitor that has focus keeps it.
pub proof fn law_repaging_keeps_first_page(
    state: StateView,
    configs: Seq<WorkspaceConfigView>,
    group: Seq<char>,
)
    requires
        state.is_valid(),
        placements_fit(state),
        state.monitors.len() <= usize::MAX,
        state.workspaces().len() <= usize::MAX,
        spanning_config(configs, group, 0) is Some ==> is_settled(state.monitors, group),
        displays_page_everywhere(state, PageKeyView::first(group)),
        repaged(state, configs).1 is Ok,
    ensures
        switches_to(state, repaged(state, configs).0, PageKeyView::first(group)),
{
    let key = PageKeyView::first(group);
    let listed = members_of(state.workspaces());
    let groups = spanning_configs(configs, configs.len());
    if state.monitors.len() > 0 {
        lemma_is_listing(state);
        lemma_fronts_are_displayed(state, key);
        if is_named(groups, 0, group) {
            lemma_named_is_declared(configs, configs.len(), group);
        }
        lemma_settled_is_reassigned(state, listed, groups, 0, false, group);
        law_repaging_keeps_page(state, configs, key);
    }
}

/// The configs of spanning workspaces are declared.
proof fn lemma_named_is_declared(configs: Seq<WorkspaceConfigView>, count: nat, name: Seq<char>)
    requires
        count <= configs.len(),
        is_named(spanning_configs(configs, count), 0, name),
    ensures
        spanning_config(configs, name, 0) is Some,
    decreases count,
{
    let groups = spanning_configs(configs, count);
    let i = choose|i: int| 0 <= i < groups.len() && (#[trigger] groups[i]).name == name;
    if count > 0 {
        let rest = spanning_configs(configs, (count - 1) as nat);
        if i < rest.len() {
            assert(rest[i].name == name);
            lemma_named_is_declared(configs, (count - 1) as nat, name);
        } else {
            lemma_declared(configs, count - 1, 0);
        }
    }
}

proof fn lemma_declared(configs: Seq<WorkspaceConfigView>, at: int, from: int)
    requires
        0 <= from <= at < configs.len(),
        configs[at].monitors is Some,
    ensures
        spanning_config(configs, configs[at].name, from) is Some,
    decreases at - from,
{
    if from < at {
        lemma_declared(configs, at, from + 1);
    }
}

/// An instance of a page on a monitor is found there.
proof fn lemma_page_instance_is_found(monitor: MonitorView, key: PageKeyView, count: nat, j: int)
    requires
        0 <= j < count <= monitor.focus_order.len(),
        monitor.position(monitor.focus_order[j]) is Some,
        monitor.workspaces[monitor.position(
            monitor.focus_order[j],
        )->0].config.page_key() == Some(key),
    ensures
        page_instances(monitor, key, count).len() > 0,
    decreases count,
{
    if j < count - 1 {
        lemma_page_instance_is_found(monitor, key, (count - 1) as nat, j);
    }
}

/// Displaying the first page on a monitor keeps its group settled.
proof fn lemma_synced_stays_settled(
    state: StateView,
    configs: Seq<WorkspaceConfigView>,
    m: int,
    group: Seq<char>,
    focused_monitor: u128,
)
    requires
        state.is_valid(),
        state.next_id + 1 <= u128::MAX,
        0 <= m < state.monitors.len(),
        is_settled(state.monitors, group),
        monitor_synced(
            state,
            configs,
            m,
            PageKeyView::first(group),
            focused_monitor,
        ).1 is Ok,
    ensures
        is_settled(
            monitor_synced(
                state,
                configs,
                m,
                PageKeyView::first(group),
                focused_monitor,
            ).0.monitors,
            group,
        ),
{
    let key = PageKeyView::first(group);
    let a = state.monitors;
    let monitor = a[m];
    let displayed = monitor.workspaces[monitor.displayed()->0].id;
    let is_focused_monitor = monitor.id == focused_monitor;
    let (ready, result) = with_page_instance(state, configs, m, key);
    let instance = result->Ok_0;
    let next = monitor_synced(state, configs, m, key, focused_monitor).0;
    if page_instance(monitor, key) is None {
        let declared = spanning_config(configs, key.group, 0)->0;
        lemma_spanning_config(configs, key.group, 0);
        let config = instance_config(
            declared,
            key,
            new_instance_name(state, configs, key, monitor.id),
        );
        lemma_new_workspace_found(state, configs, config, m, true);
        assert(!has_first_page(a, group, m)) by {
            if has_first_page(a, group, m) {
                let y = choose|y: u128| #[trigger]
                    is_instance(a, y, group) && host_of(a, y) == m && page_of(a, y) == 1;
                let at = lemma_found_place(a, y);
                assert(is_valid_monitor(monitor));
                assert(monitor.focus_order.contains(monitor.workspaces[at].id));
                let j = choose|j: int|
                    0 <= j < monitor.focus_order.len() && monitor.focus_order[j] == y;
                assert(monitor.position(monitor.focus_order[j]) is Some);
                lemma_workspace_position(monitor.workspaces, y, 0);
                let place = monitor.position(y)->0;
                assert(a[m].workspaces[place].id == a[m].workspaces[at].id);
                lemma_page_instance_is_found(monitor, key, monitor.focus_order.len(), j);
            }
        }
        lemma_new_stays_settled(a, ready.monitors, group, state.next_id, m);
    }
    if displayed == instance && !is_focused_monitor {
    } else {
        let container = ready.container_to_focus(instance);
        lemma_focus_found(ready, container);
        crate::invariants::lemma_focus_keeps(ready, container);
        lemma_kept(ready, ready.focus(container), 0);
        assert(next.monitors == ready.focus(container).monitors);
        lemma_same_stays_settled(ready.monitors, next.monitors, group);
    }
}

/// Displaying the first page on monitors keeps its group settled.
pub proof fn lemma_display_stays_settled(
    state: StateView,
    configs: Seq<WorkspaceConfigView>,
    order: Seq<u128>,
    count: nat,
    group: Seq<char>,
    focused_monitor: u128,
    changed: bool,
)
    requires
        state.is_valid(),
        count <= order.len(),
        state.next_id + count <= u128::MAX,
        is_settled(state.monitors, group),
        monitors_synced(
            state,
            configs,
            order,
            count,
            PageKeyView::first(group),
            focused_monitor,
            changed,
        ).1 is Ok,
    ensures
        is_settled(
            monitors_synced(
                state,
                configs,
                order,
                count,
                PageKeyView::first(group),
                focused_monitor,
                changed,
            ).0.monitors,
            group,
        ),
    decreases count,
{
    let key = PageKeyView::first(group);
    if count > 0 {
        let id = order[count - 1];
        let rest = (count - 1) as nat;
        lemma_monitor_position(state.monitors, id, 0);
        match monitor_position(state.monitors, id, 0) {
            None => {
                lemma_display_stays_settled(
                    state,
                    configs,
                    order,
                    rest,
                    group,
                    focused_monitor,
                    changed,
                );
            },
            Some(monitor) => {
                let (synced, result) = monitor_synced(
                    state,
                    configs,
                    monitor,
                    key,
                    focused_monitor,
                );
                law_page_is_displayed_on_monitor(state, configs, monitor, key, focused_monitor);
                lemma_kept_valid(state, synced, 1);
                lemma_synced_stays_settled(state, configs, monitor, group, focused_monitor);
                lemma_display_stays_settled(
                    synced,
                    configs,
                    order,
                    rest,
                    group,
                    focused_monitor,
                    changed || result->Ok_0,
                );
            },
        }
    }
}

/// Removing an empty workspace that isn't displayed keeps a group settled.
pub proof fn lemma_deactivate_stays_settled(state: StateView, id: u128, group: Seq<char>)
    requires
        state.is_valid(),
        !state.has_children(id),
        !state.is_displayed(id),
        is_settled(state.monitors, group),
    ensures
        is_settled(state.deactivate(id).0.monitors, group),
{
    lemma_deactivate_found(state, id);
    let (a, b) = (state.monitors, state.deactivate(id).0.monitors);
    assert forall|x: u128| #[trigger] is_instance(b, x, group) implies found(b, x) == found(
        a,
        x,
    ) by {
        assert(x != id);
    }
    lemma_stays_settled(a, b, group);
}

/// What distributing instances anew does to a group and its first page.
#[verifier::opaque]
pub open spec fn settles_group(
    before: StateView,
    after: StateView,
    configs: Seq<WorkspaceConfigView>,
    group: Seq<char>,
) -> bool {
    let first = PageKeyView::first(group);
    &&& spanning_config(configs, group, 0) is Some && regular_configs_join_first_page(
        configs,
        group,
    ) && (homes_are_unrivalled(before.monitors, group) || is_settled(before.monitors, group)) ==> is_settled(after.monitors, group)
    &&& (spanning_config(configs, group, 0) is Some ==> is_settled(before.monitors, group))
        && displays_page_everywhere(before, first) ==> switches_to(before, after, first)
}

/// Distributing instances anew settles each declared group of which no two homes match the same
/// monitor, keeps settled groups settled, and leaves their first page displayed on every monitor
/// if it was.
pub open spec fn settles_groups(
    before: StateView,
    after: StateView,
    configs: Seq<WorkspaceConfigView>,
) -> bool {
    forall|group: Seq<char>| #[trigger] settles_group(before, after, configs, group)
}

pub proof fn lemma_repaging_settles_groups(state: StateView, configs: Seq<WorkspaceConfigView>)
    requires
        state.is_valid(),
        placements_fit(state),
        0 < state.monitors.len() <= usize::MAX,
        state.workspaces().len() <= usize::MAX,
        state.next_id + state.monitors.len() <= u128::MAX,
        repaged(state, configs).1 is Ok,
    ensures
        settles_groups(state, repaged(state, configs).0, configs),
{
    let after = repaged(state, configs).0;
    assert forall|group: Seq<char>| #[trigger] settles_group(state, after, configs, group) by {
        let first = PageKeyView::first(group);
        let is_declared = spanning_config(configs, group, 0) is Some;
        if is_declared && regular_configs_join_first_page(configs, group) && (homes_are_unrivalled(
            state.monitors,
            group,
        ) || is_settled(state.monitors, group)) {
            law_repaging_settles(state, configs, group);
        }
        if (is_declared ==> is_settled(state.monitors, group)) && displays_page_everywhere(
            state,
            first,
        ) {
            law_repaging_keeps_first_page(state, configs, group);
        }
        reveal(settles_group);
    }
}

} // verus!
