//! A page that every monitor displays stays displayed as long as its instances are assigned the
//! monitors and pages that they are on.
use vstd::prelude::*;

use crate::invariants::{
    is_valid_monitor, lemma_recent_window_stays, lemma_same_monitor_position, placements_fit,
};
use crate::monitor::{lemma_workspace_position, MonitorView};
use crate::packing_laws::lemma_is_listing;
use crate::page_display::{displays_page, displays_page_everywhere};
use crate::page_key::PageKeyView;
use crate::page_placement::PagePlacement;
use crate::repage_laws::{
    gathered_state, group_instances, group_plan, host_of, in_group, is_front, is_instance,
    is_listing, is_pass, is_placed_by, is_plan, lemma_group_repaged, lemma_other_group_stays,
    lemma_same_frame_itself, lemma_same_frame_transitive, others_stay, plan_holds, same_frame,
    value_of,
};
use crate::repage_spanning_desktops::{
    group_repaged, groups_repaged, members_of, monitors_filled, repaged, MemberView,
};
use crate::settled_homes::lemma_pass_host;
use crate::user_config::spanning_configs;
use crate::wm_state::{
    lemma_monitor_position, monitor_position, same_layout, same_screen, StateView,
};
use crate::workspace::WorkspaceView;
use crate::workspace_config::WorkspaceConfigView;
use crate::workspace_map::{found, front, lemma_found_at, lemma_found_place, lemma_sort_found};

verus! {

/// Whether every monitor displays a page, and the focused monitor is the same as before.
pub open spec fn switches_to(before: StateView, after: StateView, key: PageKeyView) -> bool {
    displays_page_everywhere(after, key) && after.focused_monitor() == before.focused_monitor()
}

/// Whether each monitor's most recently focused workspace is an instance of a page.
pub open spec fn fronts_show(monitors: Seq<MonitorView>, key: PageKeyView) -> bool {
    forall|n: int|
        0 <= n < monitors.len() ==> {
            let first = front(#[trigger] monitors[n]);
            &&& first is Some
            &&& is_instance(monitors, first->0, key.group)
            &&& host_of(monitors, first->0) == n
            &&& value_of(monitors, first->0).config.page_key() == Some(key)
        }
}

/// What is displayed is what was focused most recently.
pub proof fn lemma_fronts_are_displayed(state: StateView, key: PageKeyView)
    requires
        state.is_valid(),
    ensures
        fronts_show(state.monitors, key) <==> displays_page_everywhere(state, key),
{
    let monitors = state.monitors;
    assert forall|n: int| 0 <= n < monitors.len() implies displays_page(
        #[trigger] monitors[n],
        key,
    ) == ({
        let first = front(monitors[n]);
        &&& first is Some
        &&& is_instance(monitors, first->0, key.group)
        &&& host_of(monitors, first->0) == n
        &&& value_of(monitors, first->0).config.page_key() == Some(key)
    }) by {
        let monitor = monitors[n];
        assert(is_valid_monitor(monitor));
        if front(monitor) is Some {
            let id = monitor.focus_order[0];
            assert(monitor.position(id) is Some);
            lemma_workspace_position(monitor.workspaces, id, 0);
            lemma_found_at(monitors, n, monitor.position(id)->0);
        }
    }
}

/// Whether each displayed instance is assigned the monitor that displays it, and the given page.
pub open spec fn keeps_slots(
    monitors: Seq<MonitorView>,
    plan: Seq<PagePlacement>,
    key: PageKeyView,
) -> bool {
    forall|n: int, k: int|
        0 <= n < monitors.len() && 0 <= k < plan.len() && Some((#[trigger] plan[k]).workspace)
            == front(#[trigger] monitors[n]) ==> plan[k].monitor == n && plan[k].page == key.page
}

/// Whether each displayed instance is assigned its monitor and page again, whenever the page's
/// group is distributed among the groups from `from` on.
pub open spec fn are_reassigned(
    state: StateView,
    listed: Seq<MemberView>,
    groups: Seq<WorkspaceConfigView>,
    from: int,
    changed: bool,
    key: PageKeyView,
) -> bool
    decreases groups.len() - from,
{
    if from < 0 || from >= groups.len() {
        true
    } else {
        let (next, result) = group_repaged(state, listed, groups[from], changed);
        match result {
            Ok(now) => {
                &&& groups[from].name == key.group ==> keeps_slots(
                    state.monitors,
                    group_plan(state, listed, key.group),
                    key,
                )
                &&& are_reassigned(next, listed, groups, from + 1, now, key)
            },
            Err(_) => true,
        }
    }
}

/// Whether each displayed instance is assigned its monitor and page again when instances are
/// distributed anew.
pub open spec fn is_reassigned(
    state: StateView,
    configs: Seq<WorkspaceConfigView>,
    key: PageKeyView,
) -> bool {
    are_reassigned(
        state,
        members_of(state.workspaces()),
        spanning_configs(configs, configs.len()),
        0,
        false,
        key,
    )
}

/// Layouts that are the same as one another are all the same.
pub proof fn lemma_layout_transitive(
    a: Seq<MonitorView>,
    b: Seq<MonitorView>,
    c: Seq<MonitorView>,
)
    requires
        same_layout(a, b),
        same_layout(b, c),
    ensures
        same_layout(a, c),
{
    assert forall|i: int| #![trigger a[i]] #![trigger c[i]] 0 <= i < a.len() implies same_screen(
        a[i],
        c[i],
    ) by {
        assert(same_screen(a[i], b[i]));
        assert(same_screen(b[i], c[i]));
    }
}

/// Distributing the instances of a group leaves those displayed that are assigned their slots
/// again.
pub proof fn lemma_pass_keeps_fronts(
    state: StateView,
    next: StateView,
    listed: Seq<MemberView>,
    middle: Seq<MonitorView>,
    instances: Seq<WorkspaceView>,
    plan: Seq<PagePlacement>,
    key: PageKeyView,
)
    requires
        is_pass(state, next, listed, key.group, middle, instances, plan),
        key.page >= 1,
        fronts_show(state.monitors, key),
        keeps_slots(state.monitors, plan, key),
    ensures
        fronts_show(next.monitors, key),
        forall|n: int|
            0 <= n < state.monitors.len() ==> front(#[trigger] next.monitors[n]) == front(
                state.monitors[n],
            ),
{
    let (a, c) = (state.monitors, next.monitors);
    let group = key.group;
    assert(c.len() == a.len() && plan_holds(a, c, group, instances, plan) && others_stay(
        a,
        c,
        group,
        plan,
    )) by {
        reveal(is_pass);
    }
    assert forall|n: int| 0 <= n < c.len() implies front(#[trigger] c[n]) == front(a[n]) && ({
        let first = front(c[n]);
        &&& first is Some
        &&& is_instance(c, first->0, group)
        &&& host_of(c, first->0) == n
        &&& value_of(c, first->0).config.page_key() == Some(key)
    }) by {
        let x = front(a[n])->0;
        assert(front(a[n]) == Some(x));
        assert(is_placed_by(plan, 0, x)) by {
            reveal(others_stay);
            assert(is_front(a, x));
        }
        assert(front(c[n]) == front(a[n])) by {
            reveal(others_stay);
            assert(front(a[n]) is Some);
            assert(!(exists|k: int|
                0 <= k < plan.len() && Some((#[trigger] plan[k]).workspace) == front(a[n])
                    && plan[k].monitor != n));
        }
        let k = choose|k: int| 0 <= k < plan.len() && (#[trigger] plan[k]).workspace == x;
        reveal(plan_holds);
        assert(in_group(value_of(c, plan[k].workspace), group));
        assert(plan[k].monitor == n && plan[k].page == key.page);
    }
}

/// Distributing one group leaves the displayed instances of another one displayed.
pub proof fn lemma_other_pass_keeps_fronts(
    state: StateView,
    next: StateView,
    listed: Seq<MemberView>,
    group: Seq<char>,
    middle: Seq<MonitorView>,
    instances: Seq<WorkspaceView>,
    plan: Seq<PagePlacement>,
    key: PageKeyView,
)
    requires
        state.is_valid(),
        is_pass(state, next, listed, group, middle, instances, plan),
        group != key.group,
        fronts_show(state.monitors, key),
    ensures
        fronts_show(next.monitors, key),
        forall|n: int|
            0 <= n < state.monitors.len() ==> front(#[trigger] next.monitors[n]) == front(
                state.monitors[n],
            ),
{
    let (a, c) = (state.monitors, next.monitors);
    lemma_other_group_stays(state, next, listed, group, middle, instances, plan, key.group);
    assert(c.len() == a.len() && is_plan(middle.len(), instances, plan) && others_stay(
        a,
        c,
        group,
        plan,
    )) by {
        reveal(is_pass);
    }
    assert forall|n: int| 0 <= n < c.len() implies front(#[trigger] c[n]) == front(a[n]) && ({
        let first = front(c[n]);
        &&& first is Some
        &&& is_instance(c, first->0, key.group)
        &&& host_of(c, first->0) == n
        &&& value_of(c, first->0).config.page_key() == Some(key)
    }) by {
        let x = front(a[n])->0;
        assert(front(a[n]) == Some(x));
        assert(is_instance(a, x, key.group));
        assert(found(c, x) == found(a, x));
        assert forall|k: int| 0 <= k < plan.len() implies (#[trigger] plan[k]).workspace != x by {
            reveal(is_plan);
            let i = plan[k].instance as int;
            assert(0 <= i < instances.len());
            lemma_pass_host(state, next, listed, group, middle, instances, plan, i);
        }
        reveal(others_stay);
        assert(front(a[n]) is Some);
    }
}

/// Distributing all groups leaves a page displayed whose instances are assigned their slots
/// again.
proof fn lemma_groups_keep_fronts(
    state: StateView,
    listed: Seq<MemberView>,
    groups: Seq<WorkspaceConfigView>,
    from: int,
    changed: bool,
    key: PageKeyView,
)
    requires
        state.is_valid(),
        placements_fit(state),
        is_listing(listed, state.monitors),
        0 < state.monitors.len() <= usize::MAX,
        listed.len() <= usize::MAX,
        0 <= from <= groups.len(),
        groups_repaged(state, listed, groups, from, changed).1 is Ok,
        key.page >= 1,
        are_reassigned(state, listed, groups, from, changed, key),
        fronts_show(state.monitors, key),
    ensures
        ({
            let last = groups_repaged(state, listed, groups, from, changed).0;
            &&& last.is_valid()
            &&& same_frame(state, last)
            &&& fronts_show(last.monitors, key)
            &&& forall|n: int|
                0 <= n < state.monitors.len() ==> front(#[trigger] last.monitors[n]) == front(
                    state.monitors[n],
                )
        }),
    decreases groups.len() - from,
{
    let last = groups_repaged(state, listed, groups, from, changed).0;
    if from == groups.len() {
        lemma_same_frame_itself(state);
    } else {
        let name = groups[from].name;
        let (next, result) = group_repaged(state, listed, groups[from], changed);
        lemma_group_repaged(state, listed, groups[from], changed);
        let middle = gathered_state(state, listed, name).monitors;
        let instances = group_instances(state, listed, name);
        let plan = group_plan(state, listed, name);
        assert(next.is_valid() && placements_fit(next) && same_frame(state, next) && is_listing(
            listed,
            next.monitors,
        )) by {
            reveal(is_pass);
        }
        if name == key.group {
            lemma_pass_keeps_fronts(state, next, listed, middle, instances, plan, key);
        } else {
            lemma_other_pass_keeps_fronts(
                state,
                next,
                listed,
                name,
                middle,
                instances,
                plan,
                key,
            );
        }
        lemma_groups_keep_fronts(next, listed, groups, from + 1, result->Ok_0, key);
        lemma_same_frame_transitive(state, next, last);
        assert forall|n: int| 0 <= n < state.monitors.len() implies front(
            #[trigger] last.monitors[n],
        ) == front(state.monitors[n]) by {
            assert(front(next.monitors[n]) == front(state.monitors[n]));
        }
    }
}

/// While every monitor displays something, none is filled.
proof fn lemma_filling_keeps_fronts(
    state: StateView,
    configs: Seq<WorkspaceConfigView>,
    from: int,
    count: int,
    changed: bool,
    key: PageKeyView,
)
    requires
        state.is_valid(),
        0 <= from <= count <= state.monitors.len(),
        fronts_show(state.monitors, key),
    ensures
        ({
            let last = monitors_filled(state, configs, from, count, changed).0;
            &&& last.is_valid()
            &&& same_layout(state.monitors, last.monitors)
            &&& last.nodes == state.nodes
            &&& last.focus_order == state.focus_order
            &&& last.window_focus_order == state.window_focus_order
            &&& fronts_show(last.monitors, key)
            &&& forall|n: int|
                0 <= n < state.monitors.len() ==> front(#[trigger] last.monitors[n]) == front(
                    state.monitors[n],
                )
        }),
    decreases count - from,
{
    if from < count {
        let a = state.monitors;
        let x = front(a[from])->0;
        assert(is_instance(a, x, key.group) && host_of(a, x) == from);
        let at = lemma_found_place(a, x);
        let next = state.sort(from, configs);
        lemma_sort_found(state, from, configs);
        assert(fronts_show(next.monitors, key)) by {
            assert forall|n: int| 0 <= n < next.monitors.len() implies {
                let first = front(#[trigger] next.monitors[n]);
                &&& first is Some
                &&& is_instance(next.monitors, first->0, key.group)
                &&& host_of(next.monitors, first->0) == n
                &&& value_of(next.monitors, first->0).config.page_key() == Some(key)
            } by {
                assert(front(a[n]) is Some);
                assert(found(next.monitors, front(a[n])->0) == found(a, front(a[n])->0));
            }
        }
        lemma_filling_keeps_fronts(next, configs, from + 1, count, changed, key);
        let last = monitors_filled(state, configs, from, count, changed).0;
        lemma_layout_transitive(a, next.monitors, last.monitors);
        assert forall|n: int| 0 <= n < a.len() implies front(#[trigger] last.monitors[n]) == front(
            a[n],
        ) by {
            assert(front(a[n]) is Some);
            assert(front(next.monitors[n]) == front(a[n]));
        }
    } else {
        assert(same_layout(state.monitors, state.monitors));
    }
}

/// The focused container is the same as long as the monitors display the same.
proof fn lemma_same_focused_container(a: StateView, b: StateView)
    requires
        a.is_valid(),
        b.is_valid(),
        same_layout(a.monitors, b.monitors),
        crate::invariants::same_tree(a.nodes, b.nodes),
        a.focus_order == b.focus_order,
        a.window_focus_order == b.window_focus_order,
        forall|n: int|
            0 <= n < a.monitors.len() ==> front(#[trigger] b.monitors[n]) == front(a.monitors[n])
                && front(a.monitors[n]) is Some,
    ensures
        a.focused_container() == b.focused_container(),
        a.focused_monitor() == b.focused_monitor(),
{
    assert forall|m: int| 0 <= m < a.monitors.len() implies (#[trigger] a.monitors[m]).id
        == b.monitors[m].id by {
        assert(same_screen(a.monitors[m], b.monitors[m]));
    }
    lemma_same_monitor_position(a.monitors, b.monitors, 0);
    if a.focus_order.len() > 0 {
        assert(monitor_position(a.monitors, a.focus_order[0], 0) == monitor_position(
            b.monitors,
            a.focus_order[0],
            0,
        ));
        if let Some(m) = a.focused_monitor() {
            lemma_monitor_position(a.monitors, a.focus_order[0], 0);
            let (x, y) = (a.monitors[m], b.monitors[m]);
            assert(front(b.monitors[m]) == front(a.monitors[m]));
            assert(is_valid_monitor(x) && is_valid_monitor(y));
            let id = x.focus_order[0];
            assert(y.focus_order[0] == id);
            assert(x.position(x.focus_order[0]) is Some && y.position(y.focus_order[0]) is Some);
            lemma_workspace_position(x.workspaces, id, 0);
            lemma_workspace_position(y.workspaces, id, 0);
            lemma_recent_window_stays(a.window_focus_order, a.nodes, b.nodes, id, 0);
        }
    }
}

/// A page that every monitor displays stays displayed when instances are distributed anew, if each
/// displayed instance is assigned its monitor and page again. The monitor that has focus keeps it.
pub proof fn law_repaging_keeps_page(
    state: StateView,
    configs: Seq<WorkspaceConfigView>,
    key: PageKeyView,
)
    requires
        state.is_valid(),
        placements_fit(state),
        state.monitors.len() <= usize::MAX,
        state.workspaces().len() <= usize::MAX,
        key.page >= 1,
        is_reassigned(state, configs, key),
        displays_page_everywhere(state, key),
        repaged(state, configs).1 is Ok,
    ensures
        switches_to(state, repaged(state, configs).0, key),
{
    if state.monitors.len() > 0 {
        let listed = members_of(state.workspaces());
        let groups = spanning_configs(configs, configs.len());
        let (paged, paging) = groups_repaged(state, listed, groups, 0, false);
        let count = state.monitors.len() as int;
        let filled = monitors_filled(paged, configs, 0, count, paging->Ok_0).0;
        lemma_is_listing(state);
        lemma_fronts_are_displayed(state, key);
        lemma_groups_keep_fronts(state, listed, groups, 0, false, key);
        lemma_filling_keeps_fronts(paged, configs, 0, count, paging->Ok_0, key);
        lemma_layout_transitive(state.monitors, paged.monitors, filled.monitors);
        assert forall|n: int| 0 <= n < state.monitors.len() implies front(
            #[trigger] filled.monitors[n],
        ) == front(state.monitors[n]) && front(state.monitors[n]) is Some by {
            assert(front(paged.monitors[n]) == front(state.monitors[n]));
            assert(front(state.monitors[n]) is Some);
        }
        lemma_same_focused_container(state, filled);
        assert(repaged(state, configs).0 == filled);
        lemma_fronts_are_displayed(filled, key);
    }
}

/// What distributing instances anew does to a page that every monitor displays.
#[verifier::opaque]
pub open spec fn keeps_page(
    before: StateView,
    after: StateView,
    configs: Seq<WorkspaceConfigView>,
    key: PageKeyView,
) -> bool {
    key.page >= 1 && is_reassigned(before, configs, key) && displays_page_everywhere(before, key)
        ==> switches_to(before, after, key)
}

/// Whether each page that every monitor displays stays displayed, if each displayed instance is
/// assigned its monitor and page again.
pub open spec fn keeps_pages(
    before: StateView,
    after: StateView,
    configs: Seq<WorkspaceConfigView>,
) -> bool {
    forall|key: PageKeyView| #[trigger] keeps_page(before, after, configs, key)
}

pub proof fn lemma_repaging_keeps_pages(state: StateView, configs: Seq<WorkspaceConfigView>)
    requires
        state.is_valid(),
        placements_fit(state),
        state.monitors.len() <= usize::MAX,
        state.workspaces().len() <= usize::MAX,
        repaged(state, configs).1 is Ok,
    ensures
        keeps_pages(state, repaged(state, configs).0, configs),
{
    let after = repaged(state, configs).0;
    assert forall|key: PageKeyView| #[trigger] keeps_page(state, after, configs, key) by {
        if key.page >= 1 && is_reassigned(state, configs, key) && displays_page_everywhere(
            state,
            key,
        ) {
            law_repaging_keeps_page(state, configs, key);
        }
        reveal(keeps_page);
    }
}

} // verus!
