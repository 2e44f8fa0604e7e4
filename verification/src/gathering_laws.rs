//! Which instances outlive a distribution, and that every monitor has a workspace in the end.
use vstd::prelude::*;

use crate::activate_workspace::default_activated;
use crate::focus_laws::lemma_displayed_is_front;
use crate::invariants::{is_valid_monitor, lemma_sorted_workspaces, placements_fit};
use crate::monitor_identity::MonitorIdentityView;
use crate::repage_laws::{
    gathered_ids, gathered_state, group_instances, group_plan, is_among, is_gathered, is_instance,
    is_listed, is_listing, is_pass, is_placed_by, is_plan, lemma_gathered,
    lemma_gathered_ignores_changes, lemma_group_repaged, lemma_homed_found, lemma_listed_from,
    lemma_listed_instance, others_stay,
};
use crate::repage_spanning_desktops::{
    gathered, group_repaged, groups_repaged, homed, is_disposable, lemma_default_activated,
    members_of, monitors_filled, refocused, repaged, MemberView,
};
use crate::settled_homes::lemma_matches_of_layout;
use crate::user_config::spanning_configs;
use crate::wm_state::{same_layout, StateView};
use crate::workspace_config::WorkspaceConfigView;
use crate::workspace_map::{found, front, lemma_deactivate_found, lemma_found_place, same_fronts};

verus! {

/// Whether an instance outlives a distribution: whether it holds anything, is displayed, or is
/// kept alive on its home monitor. One on the first page without a recorded home is at home where
/// it is.
pub open spec fn remains(state: StateView, x: u128) -> bool {
    match found(state.monitors, x) {
        Some((m, workspace)) => {
            ||| exists|i: int|
                0 <= i < state.nodes.len() && (#[trigger] state.nodes[i]).workspace == x
            ||| state.monitors[m].focus_order.len() > 0 && state.monitors[m].focus_order[0] == x
            ||| workspace.config.keep_alive && match workspace.home {
                Some(home) => home.matches(state.monitors, m) is Some,
                None => workspace.config.spanning_page <= 1,
            }
        },
        None => false,
    }
}

/// An instance remains just like before as long as nothing about it changes.
proof fn lemma_remains(a: StateView, b: StateView, x: u128)
    requires
        a.is_valid(),
        found(a.monitors, x) == found(b.monitors, x),
        same_layout(a.monitors, b.monitors),
        same_fronts(a.monitors, b.monitors),
        a.nodes == b.nodes,
    ensures
        remains(a, x) == remains(b, x),
{
    if found(a.monitors, x) is Some {
        let at = lemma_found_place(a.monitors, x);
        let (m, workspace) = found(a.monitors, x)->0;
        assert(is_valid_monitor(a.monitors[m]));
        assert(a.monitors[m].focus_order.contains(a.monitors[m].workspaces[at].id));
        assert(front(a.monitors[m]) is Some);
        assert(front(b.monitors[m]) == front(a.monitors[m]));
        if let Some(home) = workspace.home {
            lemma_matches_of_layout(a.monitors, b.monitors, home, m);
        }
    }
}

/// An instance is disposed of if it doesn't remain.
proof fn lemma_disposable(state: StateView, id: u128)
    requires
        state.is_valid(),
        state.locate(id) is Some,
    ensures
        is_disposable(homed(state, state.locate(id)->0), state.locate(id)->0) <==> !remains(
            state,
            id,
        ),
{
    let place = state.locate(id)->0;
    let known = homed(state, place);
    lemma_homed_found(state, id);
    let at = lemma_found_place(state.monitors, id);
    let (m, workspace) = found(state.monitors, id)->0;
    lemma_displayed_is_front(state, id);
    lemma_displayed_is_front(known, id);
    assert(front(state.monitors[m]) is Some);
    assert(front(known.monitors[m]) == front(state.monitors[m]));
    let value = known.workspace(place);
    if let Some(home) = value.home {
        lemma_matches_of_layout(state.monitors, known.monitors, home, m);
        if workspace.home is None {
            assert(home == MonitorIdentityView::of(state.monitors, m));
        }
    }
}

/// What is examined stays if it remains, and something changes if anything doesn't.
proof fn lemma_staying(
    state: StateView,
    listed: Seq<MemberView>,
    group: Seq<char>,
    from: int,
    staying: Seq<u128>,
    changed: bool,
)
    requires
        state.is_valid(),
        0 <= from <= listed.len(),
        forall|i: int, j: int|
            0 <= i < j < listed.len() ==> (#[trigger] listed[i]).id != (#[trigger] listed[j]).id,
        gathered(state, listed, group, from, staying, changed).1 is Ok,
    ensures
        ({
            let ids = gathered_ids(state, listed, group, from, staying, changed);
            let (_, now) = gathered(state, listed, group, from, staying, changed).1->Ok_0;
            &&& forall|x: u128|
                is_listed(listed, group, from, x) ==> (#[trigger] is_among(
                    ids,
                    staying.len() as int,
                    x,
                ) <==> remains(state, x))
            &&& now <==> changed || exists|x: u128| #[trigger]
                is_listed(listed, group, from, x) && !remains(state, x)
        }),
    decreases listed.len() - from,
{
    let ids = gathered_ids(state, listed, group, from, staying, changed);
    let start = staying.len() as int;
    if from == listed.len() {
        assert(forall|x: u128| !(#[trigger] is_listed(listed, group, from, x)));
    } else if listed[from].group != Some(group) {
        lemma_staying(state, listed, group, from + 1, staying, changed);
        let (_, now) = gathered(state, listed, group, from, staying, changed).1->Ok_0;
        assert forall|x: u128| #[trigger] is_listed(listed, group, from, x) <==> is_listed(
            listed,
            group,
            from + 1,
            x,
        ) by {
            lemma_listed_from(listed, group, from, x);
        }
        if exists|x: u128| #[trigger]
            is_listed(listed, group, from, x) && !remains(state, x) {
            let x = choose|x: u128| #[trigger]
                is_listed(listed, group, from, x) && !remains(state, x);
            assert(is_listed(listed, group, from + 1, x));
        }
        if exists|x: u128| #[trigger]
            is_listed(listed, group, from + 1, x) && !remains(state, x) {
            let x = choose|x: u128| #[trigger]
                is_listed(listed, group, from + 1, x) && !remains(state, x);
            assert(is_listed(listed, group, from, x));
        }
        assert(now <==> changed || exists|x: u128| #[trigger]
            is_listed(listed, group, from, x) && !remains(state, x));
        assert(ids == gathered_ids(state, listed, group, from + 1, staying, changed));
        assert forall|x: u128| is_listed(listed, group, from, x) implies (#[trigger] is_among(
            ids,
            staying.len() as int,
            x,
        ) <==> remains(state, x)) by {
            assert(is_listed(listed, group, from + 1, x));
        }
    } else {
        let id = listed[from].id;
        let place = state.locate(id)->0;
        let known = homed(state, place);
        lemma_homed_found(state, id);
        lemma_disposable(state, id);
        let is_gone = is_disposable(known, place);
        let next = if is_gone {
            known.deactivate(id).0
        } else {
            known
        };
        let now_staying = if is_gone {
            staying
        } else {
            staying.push(id)
        };
        if is_gone {
            lemma_deactivate_found(known, id);
        }
        lemma_staying(next, listed, group, from + 1, now_staying, changed || is_gone);
        lemma_gathered(next, listed, group, from + 1, now_staying, changed || is_gone);
        assert(ids == gathered_ids(
            next,
            listed,
            group,
            from + 1,
            now_staying,
            changed || is_gone,
        ));
        assert(!is_listed(listed, group, from + 1, id)) by {
            if is_listed(listed, group, from + 1, id) {
                let j = choose|j: int|
                    from + 1 <= j < listed.len() && (#[trigger] listed[j]).id == id
                        && listed[j].group == Some(group);
                assert(listed[from].id != listed[j].id);
            }
        }
        assert forall|x: u128| x != id implies found(next.monitors, x) == #[trigger] found(
            state.monitors,
            x,
        ) by {
            assert(found(known.monitors, x) == found(state.monitors, x));
            if is_gone {
                assert(found(next.monitors, x) == found(known.monitors, x));
            }
        }
        assert forall|m: int|
            0 <= m < state.monitors.len() && front(#[trigger] state.monitors[m]) is Some implies
            front(next.monitors[m]) == front(state.monitors[m]) by {
            assert(front(known.monitors[m]) == front(state.monitors[m]));
            if is_gone {
                assert(front(next.monitors[m]) == front(known.monitors[m]));
            }
        }
        assert(same_layout(state.monitors, next.monitors)) by {
            assert forall|i: int| #![trigger state.monitors[i]] #![trigger next.monitors[i]]
                0 <= i < state.monitors.len() implies crate::wm_state::same_screen(
                state.monitors[i],
                next.monitors[i],
            ) by {
                assert(crate::wm_state::same_screen(state.monitors[i], known.monitors[i]));
                assert(crate::wm_state::same_screen(known.monitors[i], next.monitors[i]));
            }
        }
        assert(next.nodes == state.nodes);
        assert forall|x: u128| x != id implies #[trigger] remains(next, x) == remains(state, x) by {
            assert(found(next.monitors, x) == found(state.monitors, x));
            lemma_remains(state, next, x);
        }
        let now_start = now_staying.len() as int;
        assert(forall|k: int| 0 <= k < now_start ==> #[trigger] ids[k] == now_staying[k]) by {
            reveal(is_gathered);
        }
        assert(ids.len() >= now_start) by {
            reveal(is_gathered);
        }
        assert(!is_among(ids, now_start, id)) by {
            if is_among(ids, now_start, id) {
                let k = choose|k: int| now_start <= k < ids.len() && #[trigger] ids[k] == id;
                reveal(is_gathered);
                assert(is_listed(listed, group, from + 1, ids[k]));
            }
        }
        assert forall|x: u128| is_listed(listed, group, from, x) implies (#[trigger] is_among(
            ids,
            start,
            x,
        ) <==> remains(state, x)) by {
            lemma_listed_from(listed, group, from, x);
            if x == id {
                if is_gone {
                    assert(start == now_start);
                } else {
                    assert(ids[start] == id);
                    assert(is_among(ids, start, id));
                }
            } else {
                assert(is_among(ids, now_start, x) <==> remains(next, x));
                assert(remains(next, x) == remains(state, x));
                if is_among(ids, start, x) {
                    let k = choose|k: int| start <= k < ids.len() && #[trigger] ids[k] == x;
                    if k == start && !is_gone {
                        assert(ids[start] == id);
                    }
                    assert(ids[k] == x && k >= now_start);
                    assert(is_among(ids, now_start, x));
                }
                if is_among(ids, now_start, x) {
                    let k = choose|k: int| now_start <= k < ids.len() && #[trigger] ids[k] == x;
                    assert(ids[k] == x);
                    assert(is_among(ids, start, x));
                }
            }
        }
        lemma_listed_from(listed, group, from, id);
        assert(is_listed(listed, group, from, id));
        if exists|x: u128| #[trigger]
            is_listed(listed, group, from + 1, x) && !remains(next, x) {
            let x = choose|x: u128| #[trigger]
                is_listed(listed, group, from + 1, x) && !remains(next, x);
            lemma_listed_from(listed, group, from, x);
            assert(x != id);
            assert(is_listed(listed, group, from, x) && !remains(state, x));
        }
        if exists|x: u128| #[trigger]
            is_listed(listed, group, from, x) && !remains(state, x) {
            let x = choose|x: u128| #[trigger]
                is_listed(listed, group, from, x) && !remains(state, x);
            lemma_listed_from(listed, group, from, x);
            if x != id {
                assert(remains(next, x) == remains(state, x));
                assert(is_listed(listed, group, from + 1, x) && !remains(next, x));
            }
        }
        let (_, now) = gathered(state, listed, group, from, staying, changed).1->Ok_0;
        let (_, later) = gathered(
            next,
            listed,
            group,
            from + 1,
            now_staying,
            changed || is_gone,
        ).1->Ok_0;
        assert(now == later);
        assert(now <==> changed || exists|x: u128| #[trigger]
            is_listed(listed, group, from, x) && !remains(state, x));
    }
}

/// When the instances of a group are distributed, those that hold anything, are displayed, or are
/// kept alive on their home monitor remain, and all others are destroyed. Workspaces of other
/// groups and regular ones stay as they are. Destroying any counts as a change.
pub proof fn law_idle_instances_away_from_home_are_destroyed(
    state: StateView,
    listed: Seq<MemberView>,
    group: WorkspaceConfigView,
    changed: bool,
    x: u128,
    m: int,
    a: int,
)
    requires
        state.is_valid(),
        placements_fit(state),
        is_listing(listed, state.monitors),
        0 < state.monitors.len() <= usize::MAX,
        listed.len() <= usize::MAX,
        group_repaged(state, listed, group, changed).1 is Ok,
        0 <= m < state.monitors.len(),
        0 <= a < state.monitors[m].workspaces.len(),
        state.monitors[m].workspaces[a].id == x,
    ensures
        ({
            let (next, result) = group_repaged(state, listed, group, changed);
            let workspace = state.monitors[m].workspaces[a];
            let is_member = workspace.config.spanning_group == Some(group.name);
            let holds = exists|i: int|
                0 <= i < state.nodes.len() && (#[trigger] state.nodes[i]).workspace == x;
            let is_shown = state.monitors[m].focus_order[0] == x;
            let is_at_home = match workspace.home {
                Some(home) => home.matches(state.monitors, m) is Some,
                None => workspace.config.spanning_page <= 1,
            };
            let outlives = holds || is_shown || workspace.config.keep_alive && is_at_home;
            &&& is_member ==> (found(next.monitors, x) is Some <==> outlives)
            &&& !is_member ==> found(next.monitors, x) == Some((m, workspace))
            &&& changed ==> result == Ok::<bool, crate::wm_error::WmErrorView>(true)
            &&& is_member && !outlives ==> result == Ok::<bool, crate::wm_error::WmErrorView>(true)
        }),
{
    let g = group.name;
    let empty = Seq::<u128>::empty();
    crate::workspace_map::lemma_found_at(state.monitors, m, a);
    assert(is_valid_monitor(state.monitors[m]));
    assert(state.monitors[m].focus_order.contains(state.monitors[m].workspaces[a].id));
    lemma_group_repaged(state, listed, group, changed);
    lemma_gathered_ignores_changes(state, listed, g, 0, empty, changed, false);
    lemma_staying(state, listed, g, 0, empty, changed);
    lemma_staying(state, listed, g, 0, empty, false);
    lemma_gathered(state, listed, g, 0, empty, false);
    let ids = gathered_ids(state, listed, g, 0, empty, false);
    let next = group_repaged(state, listed, group, changed).0;
    let plan = group_plan(state, listed, g);
    let instances = group_instances(state, listed, g);
    lemma_listed_instance(listed, state.monitors, g, x);
    let (after, gathering) = gathered(state, listed, g, 0, empty, changed);
    let (_, now) = gathering->Ok_0;
    if now {
        lemma_applied_stays_changed(after, plan, group, 0, now);
    }
    assert(others_stay(state.monitors, next.monitors, g, plan) && is_plan(
        gathered_state(state, listed, g).monitors.len(),
        instances,
        plan,
    )) by {
        reveal(is_pass);
    }
    if is_instance(state.monitors, x, g) {
        assert(is_listed(listed, g, 0, x));
        assert(is_among(ids, empty.len() as int, x) <==> remains(state, x));
        lemma_placed_are_gathered(state, listed, group, changed, x);
        reveal(others_stay);
        if is_placed_by(plan, 0, x) {
            reveal(is_pass);
            reveal(crate::repage_laws::plan_holds);
            let k = choose|k: int| 0 <= k < plan.len() && (#[trigger] plan[k]).workspace == x;
            assert(found(next.monitors, plan[k].workspace) is Some);
        }
    } else {
        reveal(others_stay);
    }
}

/// The placed instances are those that were gathered.
proof fn lemma_placed_are_gathered(
    state: StateView,
    listed: Seq<MemberView>,
    group: WorkspaceConfigView,
    changed: bool,
    x: u128,
)
    requires
        state.is_valid(),
        is_listing(listed, state.monitors),
        group_repaged(state, listed, group, changed).1 is Ok,
        is_pass(
            state,
            group_repaged(state, listed, group, changed).0,
            listed,
            group.name,
            gathered_state(state, listed, group.name).monitors,
            group_instances(state, listed, group.name),
            group_plan(state, listed, group.name),
        ),
    ensures
        is_placed_by(group_plan(state, listed, group.name), 0, x) <==> is_among(
            gathered_ids(state, listed, group.name, 0, Seq::empty(), false),
            0,
            x,
        ),
{
    let g = group.name;
    let empty = Seq::<u128>::empty();
    lemma_gathered_ignores_changes(state, listed, g, 0, empty, changed, false);
    lemma_gathered(state, listed, g, 0, empty, false);
    let middle = gathered_state(state, listed, g);
    let ids = gathered_ids(state, listed, g, 0, empty, false);
    let instances = group_instances(state, listed, g);
    let plan = group_plan(state, listed, g);
    assert forall|k: int| 0 <= k < ids.len() implies found(
        middle.monitors,
        #[trigger] ids[k],
    ) is Some by {
        reveal(is_gathered);
    }
    crate::repage_laws::lemma_found_workspaces(middle, ids, ids.len());
    assert forall|k: int| 0 <= k < ids.len() implies (#[trigger] instances[k]).id == ids[k] by {
        let at = lemma_found_place(middle.monitors, ids[k]);
    }
    reveal(is_pass);
    reveal(is_plan);
    if is_placed_by(plan, 0, x) {
        let k = choose|k: int| 0 <= k < plan.len() && (#[trigger] plan[k]).workspace == x;
        let i = plan[k].instance as int;
        assert(instances[i].id == ids[i]);
    }
    if is_among(ids, 0, x) {
        let i = choose|i: int| 0 <= i < ids.len() && #[trigger] ids[i] == x;
        assert(instances[i].id == x);
    }
}

/// What counts as a change so far still does once placements are applied.
proof fn lemma_applied_stays_changed(
    state: StateView,
    plan: Seq<crate::page_placement::PagePlacement>,
    group: WorkspaceConfigView,
    from: int,
    changed: bool,
)
    requires
        changed,
        0 <= from <= plan.len(),
    ensures
        crate::repage_spanning_desktops::placements_applied(
            state,
            plan,
            group,
            from,
            changed,
        ).1 matches Ok(now) ==> now,
    decreases plan.len() - from,
{
    if from < plan.len() {
        let (next, result) = crate::repage_spanning_desktops::placement_applied(
            state,
            plan[from],
            group,
        );
        if let Ok(has_changes) = result {
            lemma_applied_stays_changed(next, plan, group, from + 1, true);
        }
    }
}

/// Filling monitors gives each a workspace.
proof fn lemma_filled(
    state: StateView,
    configs: Seq<WorkspaceConfigView>,
    from: int,
    count: int,
    changed: bool,
)
    requires
        0 <= from <= count <= state.monitors.len(),
        monitors_filled(state, configs, from, count, changed).1 is Ok,
    ensures
        ({
            let next = monitors_filled(state, configs, from, count, changed).0;
            &&& next.monitors.len() == state.monitors.len()
            &&& forall|m: int|
                0 <= m < from ==> #[trigger] next.monitors[m] == state.monitors[m]
            &&& forall|m: int|
                from <= m < count ==> (#[trigger] next.monitors[m]).workspaces.len() > 0
            &&& monitors_filled(state, configs, from, count, changed).1->Ok_0 <==> changed
                || exists|m: int|
                from <= m < count && (#[trigger] state.monitors[m]).workspaces.len() == 0
        }),
    decreases count - from,
{
    if from < count {
        let is_empty = state.monitors[from].workspaces.len() == 0;
        let filled = if is_empty {
            lemma_default_activated(state, configs, from);
            default_activated(state, configs, from).0
        } else {
            state
        };
        lemma_sorted_workspaces(configs, filled.monitors[from].workspaces);
        let middle = filled.sort(from, configs);
        assert(middle.monitors[from].workspaces.len() > 0);
        assert forall|m: int| 0 <= m < state.monitors.len() && m != from implies
            #[trigger] middle.monitors[m] == state.monitors[m] by {}
        lemma_filled(middle, configs, from + 1, count, changed || is_empty);
        let next = monitors_filled(state, configs, from, count, changed).0;
        assert(next.monitors[from] == middle.monitors[from]);
        if exists|m: int|
            from <= m < count && (#[trigger] state.monitors[m]).workspaces.len() == 0 {
            let m = choose|m: int|
                from <= m < count && (#[trigger] state.monitors[m]).workspaces.len() == 0;
            if m > from {
                assert(middle.monitors[m].workspaces.len() == 0);
            }
        }
        if exists|m: int|
            from + 1 <= m < count && (#[trigger] middle.monitors[m]).workspaces.len() == 0 {
            let m = choose|m: int|
                from + 1 <= m < count && (#[trigger] middle.monitors[m]).workspaces.len() == 0;
            assert(state.monitors[m].workspaces.len() == 0);
        }
        if is_empty {
            assert(state.monitors[from].workspaces.len() == 0);
        }
    }
}

/// Once instances were distributed anew, every monitor has a workspace.
pub proof fn law_every_monitor_has_a_workspace(
    state: StateView,
    configs: Seq<WorkspaceConfigView>,
    m: int,
)
    requires
        repaged(state, configs).1 is Ok,
        0 <= m < repaged(state, configs).0.monitors.len(),
        groups_repaged(
            state,
            members_of(state.workspaces()),
            spanning_configs(configs, configs.len()),
            0,
            false,
        ).0.monitors.len() == state.monitors.len(),
    ensures
        repaged(state, configs).0.monitors.len() == state.monitors.len(),
        repaged(state, configs).0.monitors[m].workspaces.len() > 0,
{
    if state.monitors.len() > 0 {
        let listed = members_of(state.workspaces());
        let groups = spanning_configs(configs, configs.len());
        let (paged, paging) = groups_repaged(state, listed, groups, 0, false);
        let count = state.monitors.len() as int;
        lemma_filled(paged, configs, 0, count, paging->Ok_0);
        let filled = monitors_filled(paged, configs, 0, count, paging->Ok_0).0;
        if let Some(container) = state.focused_container() {
            crate::invariants::lemma_focus_moves_nothing(filled, container);
        }
    }
}

/// An instance on the first page whose home isn't recorded yet is at home where it is. Any other
/// keeps its home, or goes without one.
pub proof fn law_first_page_instance_settles_where_it_is(state: StateView, place: (int, int))
    requires
        0 <= place.0 < state.monitors.len(),
        0 <= place.1 < state.monitors[place.0].workspaces.len(),
    ensures
        ({
            let next = homed(state, place);
            let before = state.monitors[place.0].workspaces[place.1];
            let after = next.monitors[place.0].workspaces[place.1];
            &&& before.home is Some || before.config.spanning_page > 1 ==> next == state
            &&& before.home is None && before.config.spanning_page <= 1 ==> after == (
            crate::workspace::WorkspaceView {
                home: Some(MonitorIdentityView::of(state.monitors, place.0)),
                ..before
            })
            &&& next == (StateView { monitors: next.monitors, ..state })
        }),
{
}

/// Focus goes back to the window that had it, wherever its workspace was moved to, unless it has it
/// still.
pub proof fn law_focus_goes_back_to_its_window(state: StateView, i: int, m: int, a: int)
    requires
        state.is_valid(),
        0 <= i < state.nodes.len(),
        state.nodes[i].content is Window,
        0 <= m < state.monitors.len(),
        0 <= a < state.monitors[m].workspaces.len(),
        state.monitors[m].workspaces[a].id == state.nodes[i].workspace,
    ensures
        ({
            let container = crate::container::ContainerRef::Window(state.nodes[i].id);
            let next = refocused(state, Some(container));
            &&& next.focused_container() == Some(container)
            &&& state.focused_container() == Some(container) ==> next == state
            &&& state.focused_container() != Some(container) ==> {
                &&& next.pending_sync.needs_focus_update
                &&& next.monitors[m].focus_order[0] == state.nodes[i].workspace
                &&& next.focus_order[0] == state.monitors[m].id
            }
        }),
        refocused(state, None) == state,
{
    crate::state_laws::law_focused_window_is_displayed(state, i, m, a);
    crate::invariants::lemma_located_at(state.monitors, m, a);
    crate::state_laws::law_first_node_with_an_identifier_is_found(
        state.nodes,
        state.nodes[i].id,
        0,
    );
    let at = crate::container::node_position(state.nodes, state.nodes[i].id, 0)->0;
    if at < i {
        assert(state.nodes[at].id != state.nodes[i].id);
    }
    let container = crate::container::ContainerRef::Window(state.nodes[i].id);
    let moved = state.focus(container);
    assert(moved.focus_change().focused_container() == moved.focused_container());
}

} // verus!
