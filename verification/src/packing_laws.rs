//! After instances were distributed anew, every page of a group has at most one of them per
//! monitor, and the pages in use are contiguous.
use vstd::prelude::*;

use crate::activate_workspace::{
    default_activated, focused_page, instance_config, new_instance_name, with_new_workspace,
};
use crate::container::ContainerRef;
use crate::invariants::{lemma_focus_moves_nothing, placements_fit};
use crate::monitor::{lemma_workspace_position, MonitorView};
use crate::page_display::lemma_spanning_config;
use crate::page_key::PageKeyView;
use crate::repage_laws::{
    gathered_state, group_instances, group_plan, host_of, is_instance, is_listing, is_packed,
    is_pass, lemma_group_is_packed, lemma_group_repaged, lemma_other_group_stays,
    lemma_same_frame_itself, lemma_same_frame_transitive, lemma_stays_packed, same_frame,
    same_instances, value_of,
};
use crate::repage_spanning_desktops::{
    group_repaged, groups_repaged, members_of, monitors_filled, refocused, repaged, MemberView,
};
use crate::user_config::{
    bound_config, inactive_configs, regular_config, regular_configs, spanning_config,
    spanning_configs, unbound_config,
};
use crate::wm_state::{attached, lemma_monitor_position, same_layout, StateView};
use crate::workspace::WorkspaceView;
use crate::workspace_config::WorkspaceConfigView;
use crate::workspace_map::{
    found, lemma_found_at, lemma_found_place, lemma_new_workspace_found, lemma_sort_found, same_but,
};

verus! {

/// A workspace of a monitor is listed behind those of earlier monitors.
proof fn lemma_attached_at(monitors: Seq<MonitorView>, count: nat, m: int, a: int)
    requires
        0 <= m < count <= monitors.len(),
        0 <= a < monitors[m].workspaces.len(),
    ensures
        attached(monitors, m as nat).len() + a < attached(monitors, count).len(),
        attached(monitors, count)[attached(monitors, m as nat).len() + a]
            == monitors[m].workspaces[a],
    decreases count,
{
    if m < count - 1 {
        lemma_attached_at(monitors, (count - 1) as nat, m, a);
    }
}

/// Place of a listed workspace.
pub proof fn lemma_attached_place(monitors: Seq<MonitorView>, count: nat, i: int) -> (place: (
    int,
    int,
))
    requires
        count <= monitors.len(),
        0 <= i < attached(monitors, count).len(),
    ensures
        0 <= place.0 < count,
        0 <= place.1 < monitors[place.0].workspaces.len(),
        attached(monitors, count)[i] == monitors[place.0].workspaces[place.1],
        i == attached(monitors, place.0 as nat).len() + place.1,
    decreases count,
{
    let rest = attached(monitors, (count - 1) as nat);
    if i < rest.len() {
        lemma_attached_place(monitors, (count - 1) as nat, i)
    } else {
        (count - 1, i - rest.len())
    }
}

/// The workspaces of a state list all that are attached, each once.
pub proof fn lemma_is_listing(state: StateView)
    requires
        state.is_valid(),
    ensures
        is_listing(members_of(state.workspaces()), state.monitors),
{
    let monitors = state.monitors;
    let count = monitors.len();
    let all = state.workspaces();
    let listed = members_of(all);
    assert forall|i: int, j: int| 0 <= i < j < listed.len() implies (#[trigger] listed[i]).id != (
    #[trigger] listed[j]).id by {
        let (m, a) = lemma_attached_place(monitors, count, i);
        let (n, b) = lemma_attached_place(monitors, count, j);
        if monitors[m].workspaces[a].id == monitors[n].workspaces[b].id {
            assert(m == n && a == b);
        }
    }
    assert forall|x: u128| #[trigger] found(monitors, x) is Some implies exists|i: int|
        0 <= i < listed.len() && (#[trigger] listed[i]).id == x by {
        let a = lemma_found_place(monitors, x);
        let (m, _) = found(monitors, x)->0;
        lemma_attached_at(monitors, count, m, a);
        assert(listed[attached(monitors, m as nat).len() + a].id == x);
    }
    assert forall|i: int| 0 <= i < listed.len() implies match found(
        monitors,
        (#[trigger] listed[i]).id,
    ) {
        Some((_, workspace)) => workspace.config.spanning_group == listed[i].group,
        None => true,
    } by {
        let (m, a) = lemma_attached_place(monitors, count, i);
        lemma_found_at(monitors, m, a);
    }
}

/// Whether one of the configs from a position on has a name.
pub open spec fn is_named(groups: Seq<WorkspaceConfigView>, from: int, name: Seq<char>) -> bool {
    exists|i: int| from <= i < groups.len() && (#[trigger] groups[i]).name == name
}

/// After the groups were distributed, each of them is packed.
proof fn lemma_groups_are_packed(
    state: StateView,
    listed: Seq<MemberView>,
    groups: Seq<WorkspaceConfigView>,
    from: int,
    changed: bool,
    group: Seq<char>,
)
    requires
        state.is_valid(),
        placements_fit(state),
        is_listing(listed, state.monitors),
        0 < state.monitors.len() <= usize::MAX,
        listed.len() <= usize::MAX,
        0 <= from <= groups.len(),
        groups_repaged(state, listed, groups, from, changed).1 is Ok,
    ensures
        ({
            let last = groups_repaged(state, listed, groups, from, changed).0;
            &&& last.is_valid()
            &&& same_frame(state, last)
            &&& is_named(groups, from, group) ==> is_packed(last.monitors, group)
            &&& !is_named(groups, from, group) ==> same_instances(
                state.monitors,
                last.monitors,
                group,
            )
        }),
    decreases groups.len() - from,
{
    let last = groups_repaged(state, listed, groups, from, changed).0;
    if from == groups.len() {
        lemma_same_frame_itself(state);
    } else {
        let name = groups[from].name;
        let (next, result) = group_repaged(state, listed, groups[from], changed);
        lemma_group_repaged(state, listed, groups[from], changed);
        let middle = gathered_state(state, listed, name).monitors;
        let instances = group_instances(state, listed, name);
        let plan = group_plan(state, listed, name);
        assert(next.is_valid() && placements_fit(next) && same_frame(state, next) && is_listing(
            listed,
            next.monitors,
        )) by {
            reveal(is_pass);
        }
        lemma_groups_are_packed(next, listed, groups, from + 1, result->Ok_0, group);
        lemma_same_frame_transitive(state, next, last);
        if is_named(groups, from + 1, group) {
            let i = choose|i: int|
                from + 1 <= i < groups.len() && (#[trigger] groups[i]).name == group;
            assert(is_named(groups, from, group));
        } else if name == group {
            assert(is_named(groups, from, group)) by {
                assert(groups[from].name == group);
            }
            lemma_group_is_packed(state, next, listed, name, middle, instances, plan);
            lemma_stays_packed(next.monitors, last.monitors, group);
        } else {
            if is_named(groups, from, group) {
                let i = choose|i: int|
                    from <= i < groups.len() && (#[trigger] groups[i]).name == group;
                assert(i > from);
            }
            lemma_other_group_stays(state, next, listed, name, middle, instances, plan, group);
            lemma_same_instances_transitive(state.monitors, next.monitors, last.monitors, group);
        }
    }
}

pub proof fn lemma_same_instances_transitive(
    a: Seq<MonitorView>,
    b: Seq<MonitorView>,
    c: Seq<MonitorView>,
    group: Seq<char>,
)
    requires
        same_instances(a, b, group),
        same_instances(b, c, group),
    ensures
        same_instances(a, c, group),
{
    assert forall|x: u128|
        is_instance(a, x, group) || is_instance(c, x, group) implies #[trigger] found(c, x)
        == found(a, x) by {
        if is_instance(a, x, group) {
            assert(found(b, x) == found(a, x));
            assert(found(c, x) == found(b, x));
        } else {
            assert(found(c, x) == found(b, x));
            assert(found(b, x) == found(a, x));
        }
    }
}

/// Whether no config of a regular workspace puts it on another page of a group than the first.
pub open spec fn regular_configs_join_first_page(
    configs: Seq<WorkspaceConfigView>,
    group: Seq<char>,
) -> bool {
    forall|i: int|
        0 <= i < configs.len() && (#[trigger] configs[i]).monitors is None
            && configs[i].spanning_group == Some(group) ==> configs[i].spanning_page == 1
}

/// The configs to choose from are among those declared.
proof fn lemma_inactive_configs(
    configs: Seq<WorkspaceConfigView>,
    workspaces: Seq<WorkspaceView>,
    count: nat,
    group: Seq<char>,
)
    requires
        count <= configs.len(),
        regular_configs_join_first_page(configs, group),
    ensures
        regular_configs_join_first_page(inactive_configs(configs, workspaces, count), group),
    decreases count,
{
    if count > 0 {
        lemma_inactive_configs(configs, workspaces, (count - 1) as nat, group);
    }
}

proof fn lemma_regular_configs(
    configs: Seq<WorkspaceConfigView>,
    count: nat,
    group: Seq<char>,
)
    requires
        count <= configs.len(),
        regular_configs_join_first_page(configs, group),
    ensures
        forall|i: int|
            0 <= i < regular_configs(configs, count).len() && (#[trigger] regular_configs(
                configs,
                count,
            )[i]).spanning_group == Some(group) ==> regular_configs(
                configs,
                count,
            )[i].spanning_page == 1,
    decreases count,
{
    if count > 0 {
        lemma_regular_configs(configs, (count - 1) as nat, group);
    }
}

proof fn lemma_bound_config(configs: Seq<WorkspaceConfigView>, monitor: int, from: int)
    requires
        0 <= from,
    ensures
        bound_config(configs, monitor, from) matches Some(config) ==> exists|i: int|
            0 <= i < configs.len() && #[trigger] configs[i] == config,
        unbound_config(configs, from) matches Some(config) ==> exists|i: int|
            0 <= i < configs.len() && #[trigger] configs[i] == config,
    decreases configs.len() - from,
{
    if from < configs.len() {
        lemma_bound_config(configs, monitor, from + 1);
    }
}

/// A regular workspace that is activated by default isn't on a further page of a group.
proof fn lemma_regular_config(
    configs: Seq<WorkspaceConfigView>,
    workspaces: Seq<WorkspaceView>,
    monitor: int,
    group: Seq<char>,
)
    requires
        regular_configs_join_first_page(configs, group),
    ensures
        regular_config(configs, workspaces, monitor) matches Some(config)
            ==> config.spanning_group == Some(group) ==> config.spanning_page == 1,
{
    let inactive = inactive_configs(configs, workspaces, configs.len());
    let regular = regular_configs(inactive, inactive.len());
    lemma_inactive_configs(configs, workspaces, configs.len(), group);
    lemma_regular_configs(inactive, inactive.len(), group);
    lemma_bound_config(regular, monitor, 0);
    if let Some(config) = regular_config(configs, workspaces, monitor) {
        assert(exists|i: int| 0 <= i < regular.len() && #[trigger] regular[i] == config) by {
            if bound_config(regular, monitor, 0) is None && unbound_config(regular, 0) is None {
                assert(regular[0] == config);
            }
        }
    }
}

/// The focused workspace is attached.
pub proof fn lemma_focused_workspace(state: StateView)
    requires
        state.is_valid(),
        state.focused_workspace() is Some,
    ensures
        ({
            let place = state.focused_workspace()->0;
            let workspace = state.workspace(place);
            &&& 0 <= place.0 < state.monitors.len()
            &&& 0 <= place.1 < state.monitors[place.0].workspaces.len()
            &&& found(state.monitors, workspace.id) == Some((place.0, workspace))
        }),
{
    let (m, a) = state.focused_workspace()->0;
    lemma_monitor_position(state.monitors, state.focus_order[0], 0);
    lemma_workspace_position(state.monitors[m].workspaces, state.monitors[m].focus_order[0], 0);
    lemma_found_at(state.monitors, m, a);
}

/// What is activated by default: a regular workspace, or an instance of a first page or of the
/// focused one.
pub proof fn lemma_default_config(
    state: StateView,
    configs: Seq<WorkspaceConfigView>,
    n: int,
    group: Seq<char>,
) -> (choice: (WorkspaceConfigView, bool))
    requires
        state.is_valid(),
        0 <= n < state.monitors.len(),
        default_activated(state, configs, n).1 is Ok,
    ensures
        default_activated(state, configs, n).0 == with_new_workspace(
            state,
            configs,
            choice.0,
            n,
            choice.1,
        ),
        regular_configs_join_first_page(configs, group) && choice.0.spanning_group == Some(group)
            ==> {
            &&& choice.0.spanning_page >= 1
            &&& choice.0.spanning_page > 1 ==> exists|x: u128| #[trigger]
                is_instance(state.monitors, x, group) && value_of(
                    state.monitors,
                    x,
                ).config.spanning_page == choice.0.spanning_page
        },
{
    let groups = spanning_configs(configs, configs.len());
    match focused_page(state, configs) {
        Some(key) => {
            let declared = spanning_config(configs, key.group, 0)->0;
            lemma_spanning_config(configs, key.group, 0);
            lemma_focused_workspace(state);
            let focused = state.workspace(state.focused_workspace()->0);
            let config = instance_config(
                declared,
                key,
                new_instance_name(state, configs, key, state.monitors[n].id),
            );
            if config.spanning_page > 1 {
                assert(is_instance(state.monitors, focused.id, key.group));
            }
            (config, true)
        },
        None => match regular_config(configs, state.workspaces(), n) {
            Some(config) => {
                if regular_configs_join_first_page(configs, group) {
                    lemma_regular_config(configs, state.workspaces(), n, group);
                }
                (config, false)
            },
            None => {
                let key = PageKeyView::first(groups[0].name);
                let declared = spanning_config(configs, key.group, 0)->0;
                lemma_spanning_config(configs, key.group, 0);
                (
                    instance_config(
                        declared,
                        key,
                        new_instance_name(state, configs, key, state.monitors[n].id),
                    ),
                    true,
                )
            },
        },
    }
}

/// A group stays packed when it gets an instance on a monitor without any, on the first page or
/// on one that is in use.
proof fn lemma_added_stays_packed(
    a: Seq<MonitorView>,
    b: Seq<MonitorView>,
    group: Seq<char>,
    id: u128,
    n: int,
)
    requires
        is_packed(a, group),
        found(a, id) is None,
        same_but(a, b, id),
        forall|x: u128| #[trigger] is_instance(a, x, group) ==> host_of(a, x) != n,
        is_instance(b, id, group) ==> {
            let page = value_of(b, id).config.spanning_page;
            &&& host_of(b, id) == n
            &&& page >= 1
            &&& page > 1 ==> exists|x: u128| #[trigger]
                is_instance(a, x, group) && value_of(a, x).config.spanning_page == page
        },
    ensures
        is_packed(b, group),
{
    assert forall|x: u128| x != id implies is_instance(b, x, group) == #[trigger] is_instance(
        a,
        x,
        group,
    ) && (is_instance(a, x, group) ==> host_of(b, x) == host_of(a, x) && value_of(b, x)
        == value_of(a, x)) by {
        assert(found(b, x) == found(a, x));
    }
    assert(!is_instance(a, id, group));
    assert forall|x: u128, y: u128|
        x != y && #[trigger] is_instance(b, x, group) && #[trigger] is_instance(
            b,
            y,
            group,
        ) implies host_of(b, x) != host_of(b, y) || value_of(b, x).config.spanning_page != value_of(
        b,
        y,
    ).config.spanning_page by {
        assert(x != id ==> is_instance(a, x, group));
        assert(y != id ==> is_instance(a, y, group));
    }
    assert forall|x: u128| #[trigger] is_instance(b, x, group) implies value_of(
        b,
        x,
    ).config.spanning_page >= 1 && (value_of(b, x).config.spanning_page > 1 ==> exists|y: u128|
        #[trigger]
        is_instance(b, y, group) && value_of(b, y).config.spanning_page == value_of(
            b,
            x,
        ).config.spanning_page - 1) by {
        let page = value_of(b, x).config.spanning_page;
        let like = if x == id && page > 1 {
            choose|y: u128| #[trigger]
                is_instance(a, y, group) && value_of(a, y).config.spanning_page == page
        } else {
            x
        };
        if x != id || page > 1 {
            assert(is_instance(a, like, group));
            if page > 1 {
                let y = choose|y: u128| #[trigger]
                    is_instance(a, y, group) && value_of(a, y).config.spanning_page == value_of(
                        a,
                        like,
                    ).config.spanning_page - 1;
                assert(is_instance(b, y, group));
            }
        }
    }
}

/// Activating a default workspace on a monitor without any keeps a group packed.
proof fn lemma_default_stays_packed(
    state: StateView,
    configs: Seq<WorkspaceConfigView>,
    n: int,
    group: Seq<char>,
)
    requires
        state.is_valid(),
        state.next_id < u128::MAX,
        0 <= n < state.monitors.len(),
        state.monitors[n].workspaces.len() == 0,
        regular_configs_join_first_page(configs, group),
        default_activated(state, configs, n).1 is Ok,
        is_packed(state.monitors, group),
    ensures
        ({
            let next = default_activated(state, configs, n).0;
            &&& next.is_valid()
            &&& next.next_id == state.next_id + 1
            &&& same_layout(state.monitors, next.monitors)
            &&& is_packed(next.monitors, group)
        }),
{
    let (config, is_home) = lemma_default_config(state, configs, n, group);
    let next = default_activated(state, configs, n).0;
    lemma_new_workspace_found(state, configs, config, n, is_home);
    let (a, b) = (state.monitors, next.monitors);
    assert forall|x: u128| #[trigger] is_instance(a, x, group) implies host_of(a, x) != n by {
        let at = lemma_found_place(a, x);
    }
    lemma_added_stays_packed(a, b, group, state.next_id, n);
}

/// Filling monitors that have no workspaces keeps a group packed.
proof fn lemma_filling_stays_packed(
    state: StateView,
    configs: Seq<WorkspaceConfigView>,
    from: int,
    count: int,
    changed: bool,
    group: Seq<char>,
)
    requires
        state.is_valid(),
        0 <= from <= count <= state.monitors.len(),
        state.next_id + (count - from) <= u128::MAX,
        regular_configs_join_first_page(configs, group),
        monitors_filled(state, configs, from, count, changed).1 is Ok,
        is_packed(state.monitors, group),
    ensures
        is_packed(monitors_filled(state, configs, from, count, changed).0.monitors, group),
    decreases count - from,
{
    if from < count {
        let filled = if state.monitors[from].workspaces.len() == 0 {
            lemma_default_stays_packed(state, configs, from, group);
            default_activated(state, configs, from).0
        } else {
            state
        };
        let next = filled.sort(from, configs);
        lemma_sort_found(filled, from, configs);
        lemma_stays_packed(filled.monitors, next.monitors, group);
        let now = changed || state.monitors[from].workspaces.len() == 0;
        lemma_filling_stays_packed(next, configs, from + 1, count, now, group);
    }
}

/// Focusing a container moves no workspace.
pub proof fn lemma_focus_found(state: StateView, container: ContainerRef)
    ensures
        forall|x: u128| #[trigger]
            found(state.focus(container).monitors, x) == found(state.monitors, x),
{
    lemma_focus_moves_nothing(state, container);
    assert forall|x: u128| #[trigger]
        found(state.focus(container).monitors, x) == found(state.monitors, x) by {
        lemma_same_workspaces_found(state.monitors, state.focus(container).monitors, x, 0);
    }
}

/// Giving back focus moves no workspace.
pub proof fn lemma_refocused_found(state: StateView, container: Option<ContainerRef>)
    requires
        state.is_valid(),
    ensures
        same_layout(state.monitors, refocused(state, container).monitors),
        forall|x: u128| #[trigger]
            found(refocused(state, container).monitors, x) == found(state.monitors, x),
{
    lemma_same_frame_itself(state);
    if let Some(focused) = container {
        lemma_focus_found(state, focused);
        crate::invariants::lemma_focus_keeps(state, focused);
        crate::invariants::lemma_kept(state, state.focus(focused), 0);
    }
}

pub proof fn lemma_same_workspaces_found(
    a: Seq<MonitorView>,
    b: Seq<MonitorView>,
    x: u128,
    from: int,
)
    requires
        a.len() == b.len(),
        forall|m: int| 0 <= m < a.len() ==> (#[trigger] b[m]).workspaces == a[m].workspaces,
        0 <= from <= a.len(),
    ensures
        crate::wm_state::located(a, x, from) == crate::wm_state::located(b, x, from),
        crate::wm_state::located(a, x, from) matches Some(place) ==> from <= place.0 < a.len(),
    decreases a.len() - from,
{
    if from < a.len() {
        assert(b[from].workspaces == a[from].workspaces);
        lemma_same_workspaces_found(a, b, x, from + 1);
    }
}

/// A spanning workspace's config is among those of all spanning workspaces.
proof fn lemma_named(configs: Seq<WorkspaceConfigView>, count: nat, at: int)
    requires
        0 <= at < count <= configs.len(),
        configs[at].monitors is Some,
    ensures
        is_named(spanning_configs(configs, count), 0, configs[at].name),
    decreases count,
{
    let groups = spanning_configs(configs, count);
    if at == count - 1 {
        assert(groups[groups.len() - 1].name == configs[at].name);
    } else {
        let rest = spanning_configs(configs, (count - 1) as nat);
        lemma_named(configs, (count - 1) as nat, at);
        let i = choose|i: int| 0 <= i < rest.len() && (#[trigger] rest[i]).name == configs[at].name;
        assert(groups[i] == rest[i]);
    }
}

pub proof fn lemma_spanning_config_at(configs: Seq<WorkspaceConfigView>, name: Seq<char>, from: int)
    requires
        0 <= from <= configs.len(),
        spanning_config(configs, name, from) is Some,
    ensures
        is_named(spanning_configs(configs, configs.len()), 0, name),
    decreases configs.len() - from,
{
    if configs[from].name == name && configs[from].monitors is Some {
        lemma_named(configs, configs.len(), from);
    } else {
        lemma_spanning_config_at(configs, name, from + 1);
    }
}

/// Whether the instances of each spanning workspace group that is declared are packed.
pub open spec fn groups_are_packed(state: StateView, configs: Seq<WorkspaceConfigView>) -> bool {
    forall|group: Seq<char>|
        spanning_config(configs, group, 0) is Some && regular_configs_join_first_page(
            configs,
            group,
        ) ==> #[trigger] is_packed(state.monitors, group)
}

/// Once the instances of all groups were distributed anew, no two instances of a group share
/// both monitor and page, and the pages that a group uses are contiguous, starting at 1.
pub proof fn law_repaged_groups_are_packed(state: StateView, configs: Seq<WorkspaceConfigView>)
    requires
        state.is_valid(),
        placements_fit(state),
        0 < state.monitors.len() <= usize::MAX,
        state.workspaces().len() <= usize::MAX,
        state.next_id + state.monitors.len() <= u128::MAX,
        repaged(state, configs).1 is Ok,
    ensures
        groups_are_packed(repaged(state, configs).0, configs),
{
    let listed = members_of(state.workspaces());
    let groups = spanning_configs(configs, configs.len());
    let (paged, paging) = groups_repaged(state, listed, groups, 0, false);
    lemma_is_listing(state);
    let count = state.monitors.len() as int;
    let filled = monitors_filled(paged, configs, 0, count, paging->Ok_0).0;
    let last = refocused(filled, state.focused_container());
    assert forall|group: Seq<char>|
        spanning_config(configs, group, 0) is Some && regular_configs_join_first_page(
            configs,
            group,
        ) implies #[trigger] is_packed(last.monitors, group) by {
        lemma_groups_are_packed(state, listed, groups, 0, false, group);
        lemma_spanning_config_at(configs, group, 0);
        lemma_filling_stays_packed(paged, configs, 0, count, paging->Ok_0, group);
        lemma_filled_valid(paged, configs, 0, count, paging->Ok_0);
        lemma_refocused_found(filled, state.focused_container());
        lemma_stays_packed(filled.monitors, last.monitors, group);
    }
}

/// Filling monitors keeps the state valid.
proof fn lemma_filled_valid(
    state: StateView,
    configs: Seq<WorkspaceConfigView>,
    from: int,
    count: int,
    changed: bool,
)
    requires
        state.is_valid(),
        0 <= from <= count <= state.monitors.len(),
        state.next_id + (count - from) <= u128::MAX,
        monitors_filled(state, configs, from, count, changed).1 is Ok,
    ensures
        monitors_filled(state, configs, from, count, changed).0.is_valid(),
    decreases count - from,
{
    if from < count {
        let filled = if state.monitors[from].workspaces.len() == 0 {
            let (config, is_home) = lemma_default_config(state, configs, from, Seq::empty());
            lemma_new_workspace_found(state, configs, config, from, is_home);
            default_activated(state, configs, from).0
        } else {
            state
        };
        lemma_sort_found(filled, from, configs);
        let now = changed || state.monitors[from].workspaces.len() == 0;
        lemma_filled_valid(filled.sort(from, configs), configs, from + 1, count, now);
    }
}

} // verus!
