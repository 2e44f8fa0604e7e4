//! What activating workspaces creates.
use vstd::prelude::*;

use crate::activate_workspace::{
    activated, activated_config, config_to_activate, default_activated, instance_config,
    is_free_number, is_name_taken, law_instance_names_are_new, monitor_name, monitor_to_activate,
    new_instance_name, new_tiling_direction, numbered_name, spanning_activated, with_new_workspace,
};
use crate::config_laws::{
    law_default_config_is_regular_and_inactive, law_first_spanning_config_with_a_name_is_found,
    law_only_inactive_workspaces_are_activated_by_name, law_spanning_configs_name_monitors,
};
use crate::monitor_identity::MonitorIdentityView;
use crate::orientation::Orientation;
use crate::page_key::PageKeyView;
use crate::state_laws::law_first_workspace_with_a_name_is_found;
use crate::user_config::{regular_config, spanning_config, spanning_configs};
use crate::wm_error::WmErrorView;
use crate::wm_event::WmEventView;
use crate::wm_state::{named, StateView};
use crate::workspace::WorkspaceView;
use crate::workspace_config::WorkspaceConfigView;
use crate::workspace_map::{found, lemma_found_place, lemma_new_workspace_found};

verus! {

/// A new workspace is added to its monitor under a new identifier, laid out like the monitor
/// stands, and with the monitor as its home if it is the monitor's screen. It is announced, and
/// no other workspace is changed. `a` is the position at which it is listed.
pub proof fn law_new_workspace_is_added_to_its_monitor(
    state: StateView,
    configs: Seq<WorkspaceConfigView>,
    config: WorkspaceConfigView,
    n: int,
    is_home: bool,
) -> (a: int)
    requires
        state.is_valid(),
        state.next_id < u128::MAX,
        0 <= n < state.monitors.len(),
    ensures
        ({
            let next = with_new_workspace(state, configs, config, n, is_home);
            let created = next.monitors[n].workspaces[a];
            let bounds = state.monitors[n].bounds;
            let is_tall = bounds.bottom - bounds.top > bounds.right - bounds.left;
            &&& next == (StateView {
                monitors: next.monitors,
                next_id: (state.next_id + 1) as u128,
                events: state.events.push(
                    WmEventView::WorkspaceActivated { activated_workspace: state.next_id },
                ),
                ..state
            })
            &&& next.is_valid()
            &&& 0 <= a < next.monitors[n].workspaces.len()
            &&& next.monitors[n].workspaces.len() == state.monitors[n].workspaces.len() + 1
            &&& created.id == state.next_id
            &&& created.config == config
            &&& created.monitor == Some(state.monitors[n].id)
            &&& created.home is Some == is_home
            &&& is_home ==> created.home->0 == MonitorIdentityView::of(state.monitors, n)
            &&& (created.tiling_direction == crate::geometry::TilingDirection::Vertical) == is_tall
            &&& (created.layout_orientation == Orientation::Portrait) == is_tall
            &&& !created.is_transposed
            &&& forall|x: u128|
                x != state.next_id ==> #[trigger] found(next.monitors, x) == found(
                    state.monitors,
                    x,
                )
            &&& next.monitors[n].focus_order == state.monitors[n].focus_order.push(state.next_id)
            &&& forall|m: int|
                0 <= m < state.monitors.len() && m != n ==> #[trigger] next.monitors[m]
                    == state.monitors[m]
        }),
{
    lemma_new_workspace_found(state, configs, config, n, is_home);
    let next = with_new_workspace(state, configs, config, n, is_home);
    crate::invariants::lemma_sorted_workspaces(
        configs,
        state.monitors[n].attach(
            WorkspaceView::created(state.next_id, config, new_tiling_direction(state.monitors[n])),
        ).workspaces,
    );
    let a = lemma_found_place(next.monitors, state.next_id);
    assert(next.monitors.len() == state.monitors.len());
    let created = WorkspaceView::created(
        state.next_id,
        config,
        new_tiling_direction(state.monitors[n]),
    );
    let workspace = WorkspaceView {
        home: if is_home {
            Some(MonitorIdentityView::of(state.monitors, n))
        } else {
            None
        },
        ..created
    };
    crate::invariants::lemma_sorted_workspaces(
        configs,
        state.monitors[n].attach(workspace).workspaces,
    );
    a
}

/// A workspace that is activated by name has that name. It is on the monitor that was asked for,
/// or else on the one that its config binds it to, if that is connected, or else on the focused
/// one. A spanning workspace becomes the first page of its group, with the monitor as its home.
pub proof fn law_workspace_is_activated_by_its_name(
    state: StateView,
    configs: Seq<WorkspaceConfigView>,
    name: Seq<char>,
    monitor: Option<int>,
) -> (place: (int, int))
    requires
        state.is_valid(),
        state.next_id < u128::MAX,
        monitor matches Some(m) ==> 0 <= m < state.monitors.len(),
        activated(state, configs, Some(name), monitor).1 is Ok,
    ensures
        ({
            let next = activated(state, configs, Some(name), monitor).0;
            let workspace = next.monitors[place.0].workspaces[place.1];
            &&& 0 <= place.0 < next.monitors.len() == state.monitors.len()
            &&& 0 <= place.1 < next.monitors[place.0].workspaces.len()
            &&& workspace.id == state.next_id
            &&& workspace.config.name == name
            &&& monitor matches Some(m) ==> place.0 == m
            &&& exists|i: int|
                {
                    let config = #[trigger] configs[i];
                    &&& 0 <= i < configs.len()
                    &&& config.name == name
                    &&& config.monitors is None ==> workspace.config == config
                        && workspace.home is None
                    &&& config.monitors is Some ==> {
                        &&& workspace.config.spanning_group == Some(name)
                        &&& workspace.config.spanning_page == 1
                        &&& workspace.home == Some(
                            MonitorIdentityView::of(state.monitors, place.0),
                        )
                    }
                    &&& monitor is None && config.monitors is None
                        && config.bind_to_monitor is Some && config.bind_to_monitor->0
                        < state.monitors.len() ==> place.0 == config.bind_to_monitor->0
                    &&& monitor is None && (config.monitors is Some
                        || config.bind_to_monitor is None || config.bind_to_monitor->0
                        >= state.monitors.len()) ==> state.focused_monitor() == Some(place.0)
                }
            &&& next == (StateView {
                monitors: next.monitors,
                next_id: next.next_id,
                events: next.events,
                ..state
            })
        }),
        forall|w: int|
            0 <= w < state.workspaces().len() ==> (#[trigger] state.workspaces()[w]).config.name
                != name,
{
    law_only_inactive_workspaces_are_activated_by_name(state, configs, name, monitor);
    let declared = config_to_activate(state, configs, Some(name), monitor)->Ok_0;
    let config = activated_config(declared);
    let target = monitor_to_activate(state, config, monitor)->0;
    if state.focus_order.len() > 0 {
        crate::wm_state::lemma_monitor_position(state.monitors, state.focus_order[0], 0);
    }
    let a = law_new_workspace_is_added_to_its_monitor(
        state,
        configs,
        config,
        target,
        declared.monitors is Some,
    );
    assert(configs.contains(declared));
    let i = choose|i: int| 0 <= i < configs.len() && configs[i] == declared;
    assert(configs[i].name == name);
    (target, a)
}

/// A workspace that can't be activated leaves everything as it is.
pub proof fn law_failed_activation_changes_nothing(
    state: StateView,
    configs: Seq<WorkspaceConfigView>,
    name: Option<Seq<char>>,
    monitor: Option<int>,
    key: PageKeyView,
    n: int,
)
    ensures
        activated(state, configs, name, monitor).1 is Err ==> activated(
            state,
            configs,
            name,
            monitor,
        ).0 == state,
        spanning_activated(state, configs, key, n).1 is Err ==> spanning_activated(
            state,
            configs,
            key,
            n,
        ) == (state, Err::<u128, WmErrorView>(WmErrorView::NoSpanningConfig(key.group))),
        spanning_activated(state, configs, key, n).1 is Err <==> forall|i: int|
            0 <= i < configs.len() ==> (#[trigger] configs[i]).name != key.group
                || configs[i].monitors is None,
{
    law_first_spanning_config_with_a_name_is_found(configs, key.group, 0);
}

/// An instance of a page is created on its monitor, with that as its home, as part of the page,
/// and under a name that no other workspace has.
pub proof fn law_instance_is_created_at_home(
    state: StateView,
    configs: Seq<WorkspaceConfigView>,
    key: PageKeyView,
    n: int,
) -> (a: int)
    requires
        state.is_valid(),
        state.next_id < u128::MAX,
        0 <= n < state.monitors.len(),
        key.page >= 1,
        spanning_activated(state, configs, key, n).1 is Ok,
    ensures
        ({
            let (next, result) = spanning_activated(state, configs, key, n);
            let workspace = next.monitors[n].workspaces[a];
            &&& result == Ok::<u128, WmErrorView>(state.next_id)
            &&& next.monitors.len() == state.monitors.len()
            &&& 0 <= a < next.monitors[n].workspaces.len()
            &&& workspace.id == state.next_id
            &&& workspace.config.spanning_group == Some(key.group)
            &&& workspace.config.spanning_page == key.page
            &&& workspace.home == Some(MonitorIdentityView::of(state.monitors, n))
            &&& forall|w: int|
                0 <= w < state.workspaces().len() ==> (
                #[trigger] state.workspaces()[w]).config.name != workspace.config.name
            &&& next == (StateView {
                monitors: next.monitors,
                next_id: next.next_id,
                events: next.events,
                ..state
            })
        }),
{
    law_first_spanning_config_with_a_name_is_found(configs, key.group, 0);
    let group = spanning_config(configs, key.group, 0)->0;
    let name = new_instance_name(state, configs, key, state.monitors[n].id);
    law_instance_names_are_new(state, configs, key, state.monitors[n].id);
    law_first_workspace_with_a_name_is_found(state.workspaces(), name, 0);
    law_new_workspace_is_added_to_its_monitor(
        state,
        configs,
        instance_config(group, key, name),
        n,
        true,
    )
}

/// A name is taken if an active workspace has it, or if another workspace than the group is
/// declared with it.
pub proof fn law_taken_names_are_active_or_declared(
    state: StateView,
    configs: Seq<WorkspaceConfigView>,
    group: Seq<char>,
    name: Seq<char>,
)
    ensures
        is_name_taken(state, configs, group, name) <==> (exists|w: int|
            0 <= w < state.workspaces().len() && (#[trigger] state.workspaces()[w]).config.name
                == name) || (exists|i: int|
            0 <= i < configs.len() && (#[trigger] configs[i]).name == name && name != group),
{
    law_first_workspace_with_a_name_is_found(state.workspaces(), name, 0);
    if let Some(workspace) = named(state.workspaces(), name, 0) {
        let at = choose|at: int|
            {
                &&& 0 <= at < state.workspaces().len()
                &&& (#[trigger] state.workspaces()[at]) == workspace
                &&& workspace.config.name == name
                &&& forall|i: int|
                    0 <= i < at ==> (#[trigger] state.workspaces()[i]).config.name != name
            };
        assert(state.workspaces()[at].config.name == name);
    }
    if exists|i: int| 0 <= i < configs.len() && (#[trigger] configs[i]).name == name && name
        != group {
        let i = choose|i: int|
            0 <= i < configs.len() && (#[trigger] configs[i]).name == name && name != group;
        assert(configs[i].name == name && configs[i].name != group);
    }
}

/// An instance is named by the label of its page. If that is taken, the first digits of its
/// monitor's identifier are put behind it, and if that is taken as well, the first free number
/// from 2 on.
pub proof fn law_instance_is_named_by_page_and_monitor(
    state: StateView,
    configs: Seq<WorkspaceConfigView>,
    key: PageKeyView,
    monitor: u128,
) -> (number: nat)
    ensures
        ({
            let name = new_instance_name(state, configs, key, monitor);
            let digits = crate::text::hex_digits(monitor as nat, 32).take(8);
            let longer = key.label() + seq!['#'] + digits;
            if !is_name_taken(state, configs, key.group, key.label()) {
                name == key.label()
            } else if !is_name_taken(state, configs, key.group, longer) {
                name == longer
            } else {
                &&& number >= 2
                &&& name == longer + seq!['-'] + crate::text::decimal(number)
                &&& forall|n: nat|
                    2 <= n < number ==> is_name_taken(
                        state,
                        configs,
                        key.group,
                        longer + seq!['-'] + #[trigger] crate::text::decimal(n),
                    )
            }
        }),
{
    law_instance_names_are_new(state, configs, key, monitor);
    let base = monitor_name(key.label(), monitor);
    let number = choose|n: nat| is_free_number(state, configs, key.group, base, n);
    if is_name_taken(state, configs, key.group, key.label()) && is_name_taken(
        state,
        configs,
        key.group,
        base,
    ) {
        crate::activate_workspace::lemma_free_number_exists(state, configs, key.group, base, 2);
        assert(is_free_number(state, configs, key.group, base, number));
        assert forall|n: nat| 2 <= n < number implies is_name_taken(
            state,
            configs,
            key.group,
            base + seq!['-'] + #[trigger] crate::text::decimal(n),
        ) by {
            assert(is_name_taken(state, configs, key.group, numbered_name(base, n)));
        }
    }
    number
}

/// A monitor without workspaces joins the page that has focus. If none has, a regular workspace
/// is activated on it whenever one is inactive, and the first page of the first group otherwise.
pub proof fn law_monitor_joins_the_focused_page(
    state: StateView,
    configs: Seq<WorkspaceConfigView>,
    n: int,
    m: int,
    a: int,
    g: int,
)
    requires
        state.is_valid(),
        state.next_id < u128::MAX,
        0 <= n < state.monitors.len(),
    ensures
        state.focused_workspace() == Some((m, a)) && (exists|i: int|
            0 <= i < configs.len() && Some((#[trigger] configs[i]).name)
                == state.monitors[m].workspaces[a].config.spanning_group
                && configs[i].monitors is Some) ==> {
            let config = state.monitors[m].workspaces[a].config;
            let key = PageKeyView {
                group: config.spanning_group->0,
                page: if config.spanning_page == 0 {
                    1
                } else {
                    config.spanning_page
                },
            };
            &&& default_activated(state, configs, n).0 == spanning_activated(
                state,
                configs,
                key,
                n,
            ).0
            &&& default_activated(state, configs, n).1 is Ok
        },
        (state.focused_workspace() is None || state.workspace(
            state.focused_workspace()->0,
        ).config.spanning_group is None) ==> {
            let is_available = |i: int|
                0 <= i < configs.len() && configs[i].monitors is None && forall|w: int|
                    0 <= w < state.workspaces().len() ==> (
                    #[trigger] state.workspaces()[w]).config.name != configs[i].name;
            &&& (exists|i: int| #[trigger] is_available(i)) ==> regular_config(
                configs,
                state.workspaces(),
                n,
            ) is Some && default_activated(state, configs, n) == (
                with_new_workspace(
                    state,
                    configs,
                    regular_config(configs, state.workspaces(), n)->0,
                    n,
                    false,
                ),
                Ok::<(), WmErrorView>(()),
            )
        },
        (state.focused_workspace() is None || state.workspace(
            state.focused_workspace()->0,
        ).config.spanning_group is None) && regular_config(configs, state.workspaces(), n) is None
            && 0 <= g < configs.len() && configs[g].monitors is Some && (forall|i: int|
            0 <= i < g ==> (#[trigger] configs[i]).monitors is None) ==> default_activated(
            state,
            configs,
            n,
        ).0 == spanning_activated(
            state,
            configs,
            PageKeyView { group: configs[g].name, page: 1 },
            n,
        ).0 && default_activated(state, configs, n).1 is Ok,
{
    if state.focused_workspace() == Some((m, a)) && (exists|i: int|
        0 <= i < configs.len() && Some((#[trigger] configs[i]).name)
            == state.monitors[m].workspaces[a].config.spanning_group
            && configs[i].monitors is Some) {
        let group = state.monitors[m].workspaces[a].config.spanning_group->0;
        law_first_spanning_config_with_a_name_is_found(configs, group, 0);
    }
    let is_available = |i: int|
        0 <= i < configs.len() && configs[i].monitors is None && forall|w: int|
            0 <= w < state.workspaces().len() ==> (#[trigger] state.workspaces()[w]).config.name
                != configs[i].name;
    if exists|i: int| #[trigger] is_available(i) {
        let i = choose|i: int| #[trigger] is_available(i);
        law_default_config_is_regular_and_inactive(configs, state.workspaces(), n, i);
    }
    if 0 <= g < configs.len() && configs[g].monitors is Some && (forall|i: int|
        0 <= i < g ==> (#[trigger] configs[i]).monitors is None) {
        let groups = spanning_configs(configs, configs.len());
        let origins = law_spanning_configs_name_monitors(configs, configs.len());
        assert(origins.contains(g));
        let k = choose|k: int| 0 <= k < origins.len() && origins[k] == g;
        if k > 0 {
            assert(origins[0] < origins[k]);
            assert(origins.contains(origins[0]));
            assert(configs[origins[0]].monitors is Some);
        }
        assert(groups[0] == configs[g]);
        law_first_spanning_config_with_a_name_is_found(configs, configs[g].name, 0);
    }
}

} // verus!
