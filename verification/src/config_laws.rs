//! Which workspace configs are chosen, and how workspaces are listed.
use vstd::prelude::*;

use crate::activate_workspace::{
    activated_config, config_named, config_to_activate, instance_config, monitor_to_activate,
};
use crate::page_key::PageKeyView;
use crate::rule_laws::lemma_pushed;
use crate::stable_sort::stable_sorted;
use crate::user_config::{
    bound_config, config_position, inactive_configs, listed_position, preferred_config,
    ranked_workspaces, regular_config, regular_configs, sorted_workspaces, spanning_config,
    spanning_configs, suitable_config, unbound_config,
};
use crate::wm_error::WmErrorView;
use crate::wm_state::StateView;
use crate::workspace::WorkspaceView;
use crate::workspace_config::WorkspaceConfigView;

verus! {

/// The inactive configs are those whose name no active workspace has, in the order in which they
/// are declared.
pub proof fn law_inactive_configs_have_no_workspace(
    configs: Seq<WorkspaceConfigView>,
    workspaces: Seq<WorkspaceView>,
    count: nat,
) -> (origins: Seq<int>)
    requires
        count <= configs.len(),
    ensures
        origins.len() == inactive_configs(configs, workspaces, count).len(),
        forall|k: int, l: int|
            0 <= k < l < origins.len() ==> (#[trigger] origins[k]) < (#[trigger] origins[l]),
        forall|k: int|
            0 <= k < origins.len() ==> 0 <= #[trigger] origins[k] < count && inactive_configs(
                configs,
                workspaces,
                count,
            )[k] == configs[origins[k]],
        forall|i: int|
            0 <= i < count ==> (#[trigger] origins.contains(i) <==> forall|w: int|
                0 <= w < workspaces.len() ==> (#[trigger] workspaces[w]).config.name
                    != configs[i].name),
    decreases count,
{
    if count == 0 {
        Seq::empty()
    } else {
        let last = count - 1;
        let rest = law_inactive_configs_have_no_workspace(configs, workspaces, last as nat);
        if crate::user_config::is_active(workspaces, configs[last].name) {
            assert(!rest.contains(last));
            rest
        } else {
            lemma_pushed(rest, last);
            rest.push(last)
        }
    }
}

/// The configs of spanning workspaces are those that name monitors, in the order in which they
/// are declared.
pub proof fn law_spanning_configs_name_monitors(
    configs: Seq<WorkspaceConfigView>,
    count: nat,
) -> (origins: Seq<int>)
    requires
        count <= configs.len(),
    ensures
        origins.len() == spanning_configs(configs, count).len(),
        forall|k: int, l: int|
            0 <= k < l < origins.len() ==> (#[trigger] origins[k]) < (#[trigger] origins[l]),
        forall|k: int|
            0 <= k < origins.len() ==> 0 <= #[trigger] origins[k] < count && spanning_configs(
                configs,
                count,
            )[k] == configs[origins[k]],
        forall|i: int|
            0 <= i < count ==> (#[trigger] origins.contains(i) <==> configs[i].monitors is Some),
    decreases count,
{
    if count == 0 {
        Seq::empty()
    } else {
        let last = count - 1;
        let rest = law_spanning_configs_name_monitors(configs, last as nat);
        if configs[last].monitors is Some {
            lemma_pushed(rest, last);
            rest.push(last)
        } else {
            assert(!rest.contains(last));
            rest
        }
    }
}

/// The configs of regular workspaces are those that don't name monitors, in the order in which
/// they are declared.
pub proof fn law_regular_configs_name_no_monitors(
    configs: Seq<WorkspaceConfigView>,
    count: nat,
) -> (origins: Seq<int>)
    requires
        count <= configs.len(),
    ensures
        origins.len() == regular_configs(configs, count).len(),
        forall|k: int, l: int|
            0 <= k < l < origins.len() ==> (#[trigger] origins[k]) < (#[trigger] origins[l]),
        forall|k: int|
            0 <= k < origins.len() ==> 0 <= #[trigger] origins[k] < count && regular_configs(
                configs,
                count,
            )[k] == configs[origins[k]],
        forall|i: int|
            0 <= i < count ==> (#[trigger] origins.contains(i) <==> configs[i].monitors is None),
    decreases count,
{
    if count == 0 {
        Seq::empty()
    } else {
        let last = count - 1;
        let rest = law_regular_configs_name_no_monitors(configs, last as nat);
        if configs[last].monitors is None {
            lemma_pushed(rest, last);
            rest.push(last)
        } else {
            assert(!rest.contains(last));
            rest
        }
    }
}

/// The config with a name is the first one that has it.
pub proof fn law_first_config_with_a_name_is_found(
    configs: Seq<WorkspaceConfigView>,
    name: Seq<char>,
    from: int,
)
    requires
        0 <= from,
    ensures
        match config_position(configs, name, from) {
            Some(at) => {
                &&& from <= at < configs.len()
                &&& configs[at].name == name
                &&& forall|i: int| from <= i < at ==> (#[trigger] configs[i]).name != name
                &&& config_named(configs, name, from) == Some(configs[at])
            },
            None => {
                &&& forall|i: int|
                    from <= i < configs.len() ==> (#[trigger] configs[i]).name != name
                &&& config_named(configs, name, from) is None
            },
        },
    decreases configs.len() - from,
{
    if from < configs.len() {
        law_first_config_with_a_name_is_found(configs, name, from + 1);
    }
}

/// The config of a spanning workspace is the first one with its name that names monitors.
pub proof fn law_first_spanning_config_with_a_name_is_found(
    configs: Seq<WorkspaceConfigView>,
    name: Seq<char>,
    from: int,
)
    requires
        0 <= from,
    ensures
        match spanning_config(configs, name, from) {
            Some(config) => exists|at: int|
                {
                    &&& from <= at < configs.len()
                    &&& (#[trigger] configs[at]) == config
                    &&& config.name == name
                    &&& config.monitors is Some
                    &&& forall|i: int|
                        from <= i < at ==> (#[trigger] configs[i]).name != name
                            || configs[i].monitors is None
                },
            None => forall|i: int|
                from <= i < configs.len() ==> (#[trigger] configs[i]).name != name
                    || configs[i].monitors is None,
        },
    decreases configs.len() - from,
{
    if from < configs.len() {
        law_first_spanning_config_with_a_name_is_found(configs, name, from + 1);
        if configs[from].name == name && configs[from].monitors is Some {
            assert(configs[from] == spanning_config(configs, name, from)->0);
        } else if let Some(config) = spanning_config(configs, name, from) {
            let at = choose|at: int|
                {
                    &&& from + 1 <= at < configs.len()
                    &&& (#[trigger] configs[at]) == config
                    &&& config.name == name
                    &&& config.monitors is Some
                    &&& forall|i: int|
                        from + 1 <= i < at ==> (#[trigger] configs[i]).name != name
                            || configs[i].monitors is None
                };
            assert(configs[at] == config);
        }
    }
}

proof fn lemma_bound(configs: Seq<WorkspaceConfigView>, monitor: int, from: int)
    requires
        0 <= from,
    ensures
        match bound_config(configs, monitor, from) {
            Some(config) => exists|at: int|
                {
                    &&& from <= at < configs.len()
                    &&& (#[trigger] configs[at]) == config
                    &&& config.bind_to_monitor is Some && config.bind_to_monitor->0 == monitor
                    &&& forall|i: int|
                        from <= i < at ==> (#[trigger] configs[i]).bind_to_monitor is None
                || configs[i].bind_to_monitor->0 != monitor
                },
            None => forall|i: int|
                from <= i < configs.len() ==> (#[trigger] configs[i]).bind_to_monitor is None
                || configs[i].bind_to_monitor->0 != monitor,
        },
        match unbound_config(configs, from) {
            Some(config) => exists|at: int|
                {
                    &&& from <= at < configs.len()
                    &&& (#[trigger] configs[at]) == config
                    &&& config.bind_to_monitor is None
                    &&& forall|i: int|
                        from <= i < at ==> (#[trigger] configs[i]).bind_to_monitor is Some
                },
            None => forall|i: int|
                from <= i < configs.len() ==> (#[trigger] configs[i]).bind_to_monitor is Some,
        },
    decreases configs.len() - from,
{
    if from < configs.len() {
        lemma_bound(configs, monitor, from + 1);
        if let Some(config) = bound_config(configs, monitor, from) {
            if configs[from].bind_to_monitor is Some && configs[from].bind_to_monitor->0
                == monitor {
                assert(configs[from] == config);
            } else {
                let at = choose|at: int|
                    {
                        &&& from + 1 <= at < configs.len()
                        &&& (#[trigger] configs[at]) == config
                        &&& config.bind_to_monitor is Some && config.bind_to_monitor->0 == monitor
                        &&& forall|i: int|
                            from + 1 <= i < at ==> (#[trigger] configs[i]).bind_to_monitor is None
                || configs[i].bind_to_monitor->0 != monitor
                    };
                assert(configs[at] == config);
            }
        }
        if let Some(config) = unbound_config(configs, from) {
            if configs[from].bind_to_monitor is None {
                assert(configs[from] == config);
            } else {
                let at = choose|at: int|
                    {
                        &&& from + 1 <= at < configs.len()
                        &&& (#[trigger] configs[at]) == config
                        &&& config.bind_to_monitor is None
                        &&& forall|i: int|
                            from + 1 <= i < at ==> (#[trigger] configs[i]).bind_to_monitor is Some
                    };
                assert(configs[at] == config);
            }
        }
    }
}

/// The config bound to a monitor is the first one that is.
pub proof fn law_first_bound_config_is_found(configs: Seq<WorkspaceConfigView>, monitor: int)
    ensures
        match bound_config(configs, monitor, 0) {
            Some(config) => exists|at: int|
                {
                    &&& 0 <= at < configs.len()
                    &&& (#[trigger] configs[at]) == config
                    &&& config.bind_to_monitor is Some && config.bind_to_monitor->0 == monitor
                    &&& forall|i: int|
                        0 <= i < at ==> (#[trigger] configs[i]).bind_to_monitor is None
                || configs[i].bind_to_monitor->0 != monitor
                },
            None => forall|i: int|
                0 <= i < configs.len() ==> (#[trigger] configs[i]).bind_to_monitor is None
                || configs[i].bind_to_monitor->0 != monitor,
        },
{
    lemma_bound(configs, monitor, 0);
}

/// The preferred config is the first one without a monitor binding, or the first one of all if
/// each has a binding.
pub proof fn law_unbound_config_is_preferred(configs: Seq<WorkspaceConfigView>)
    ensures
        match preferred_config(configs) {
            Some(config) => exists|at: int|
                {
                    &&& 0 <= at < configs.len()
                    &&& (#[trigger] configs[at]) == config
                    &&& config.bind_to_monitor is None ==> forall|i: int|
                        0 <= i < at ==> (#[trigger] configs[i]).bind_to_monitor is Some
                    &&& config.bind_to_monitor is Some ==> at == 0 && forall|i: int|
                        0 <= i < configs.len() ==> (#[trigger] configs[i]).bind_to_monitor is Some
                },
            None => configs.len() == 0,
        },
{
    lemma_bound(configs, 0, 0);
    if unbound_config(configs, 0) is None && configs.len() > 0 {
        assert(configs[0] == preferred_config(configs)->0);
    }
}

/// A config suits a monitor if it is bound to it. Only if there is none, the preferred one is
/// taken.
pub proof fn law_bound_config_suits_best(
    configs: Seq<WorkspaceConfigView>,
    monitor: int,
    i: int,
)
    requires
        0 <= i < configs.len(),
    ensures
        configs[i].bind_to_monitor is Some && configs[i].bind_to_monitor->0 == monitor
            ==> suitable_config(
            configs,
            Some(monitor),
        ) == bound_config(configs, monitor, 0) && suitable_config(
            configs,
            Some(monitor),
        ) is Some,
        (forall|j: int|
            0 <= j < configs.len() ==> (#[trigger] configs[j]).bind_to_monitor is None
                || configs[j].bind_to_monitor->0 != monitor) ==> suitable_config(configs, Some(monitor))
            == preferred_config(configs),
        suitable_config(configs, None) == preferred_config(configs),
{
    lemma_bound(configs, monitor, 0);
    if let Some(config) = bound_config(configs, monitor, 0) {
        let at = choose|at: int|
            {
                &&& 0 <= at < configs.len()
                &&& (#[trigger] configs[at]) == config
                &&& config.bind_to_monitor is Some && config.bind_to_monitor->0 == monitor
                &&& forall|i: int|
                    0 <= i < at ==> (#[trigger] configs[i]).bind_to_monitor is None
                || configs[i].bind_to_monitor->0 != monitor
            };
        assert(configs[at] == config);
    }
}

/// The regular workspace that is activated on a monitor by default is declared without monitors,
/// isn't active, and is one that is bound to the monitor if there is any such, or else one without
/// a binding if there is any such. There is one whenever a regular workspace is inactive.
pub proof fn law_default_config_is_regular_and_inactive(
    configs: Seq<WorkspaceConfigView>,
    workspaces: Seq<WorkspaceView>,
    monitor: int,
    i: int,
)
    requires
        0 <= i < configs.len(),
        configs[i].monitors is None,
        forall|w: int|
            0 <= w < workspaces.len() ==> (#[trigger] workspaces[w]).config.name
                != configs[i].name,
    ensures
        regular_config(configs, workspaces, monitor) matches Some(config) && {
            &&& configs.contains(config)
            &&& config.monitors is None
            &&& forall|w: int|
                0 <= w < workspaces.len() ==> (#[trigger] workspaces[w]).config.name != config.name
            &&& configs[i].bind_to_monitor is Some && configs[i].bind_to_monitor->0 == monitor
                ==> config.bind_to_monitor is Some && config.bind_to_monitor->0 == monitor
            &&& configs[i].bind_to_monitor is None ==> config.bind_to_monitor is None
                || config.bind_to_monitor->0 == monitor
        },
{
    let inactive = inactive_configs(configs, workspaces, configs.len());
    let regular = regular_configs(inactive, inactive.len());
    let a = law_inactive_configs_have_no_workspace(configs, workspaces, configs.len());
    let b = law_regular_configs_name_no_monitors(inactive, inactive.len());
    assert(a.contains(i));
    let k = choose|k: int| 0 <= k < a.len() && a[k] == i;
    assert(inactive[k] == configs[i]);
    assert(b.contains(k));
    let l = choose|l: int| 0 <= l < b.len() && b[l] == k;
    assert(regular[l] == configs[i]);
    lemma_bound(regular, monitor, 0);
    law_unbound_config_is_preferred(regular);
    let config = suitable_config(regular, Some(monitor))->0;
    assert(suitable_config(regular, Some(monitor)) is Some);
    assert(exists|at: int| 0 <= at < regular.len() && #[trigger] regular[at] == config);
    let at = choose|at: int| 0 <= at < regular.len() && #[trigger] regular[at] == config;
    assert(inactive[b[at]] == config);
    assert(b.contains(b[at]));
    assert(configs[a[b[at]]] == config);
    assert(a.contains(a[b[at]]));
}

/// A workspace is activated by name only if one with that name is declared and inactive.
pub proof fn law_only_inactive_workspaces_are_activated_by_name(
    state: StateView,
    configs: Seq<WorkspaceConfigView>,
    name: Seq<char>,
    monitor: Option<int>,
)
    ensures
        ({
            let is_active = exists|w: int|
                0 <= w < state.workspaces().len() && (
                #[trigger] state.workspaces()[w]).config.name == name;
            let is_declared = exists|i: int|
                0 <= i < configs.len() && (#[trigger] configs[i]).name == name;
            match config_to_activate(state, configs, Some(name), monitor) {
                Ok(config) => config.name == name && configs.contains(config) && !is_active,
                Err(error) => error == WmErrorView::WorkspaceUnavailable(name) && (is_active
                    || !is_declared),
            }
        }),
{
    let inactive = inactive_configs(configs, state.workspaces(), configs.len());
    let origins = law_inactive_configs_have_no_workspace(
        configs,
        state.workspaces(),
        configs.len(),
    );
    law_first_config_with_a_name_is_found(inactive, name, 0);
    if let Some(at) = config_position(inactive, name, 0) {
        assert(configs[origins[at]] == inactive[at]);
        assert(origins.contains(origins[at]));
    } else if exists|i: int| 0 <= i < configs.len() && (#[trigger] configs[i]).name == name {
        let i = choose|i: int| 0 <= i < configs.len() && (#[trigger] configs[i]).name == name;
        if origins.contains(i) {
            let k = choose|k: int| 0 <= k < origins.len() && origins[k] == i;
            assert(inactive[k].name == name);
        }
    }
}

/// A workspace is activated on the monitor that is asked for, or else on the one that it is bound
/// to, if that is connected, or else on the focused one.
pub proof fn law_workspace_is_activated_on_its_monitor(
    state: StateView,
    config: WorkspaceConfigView,
    monitor: int,
)
    ensures
        monitor_to_activate(state, config, Some(monitor)) == Some(monitor),
        config.bind_to_monitor is Some && config.bind_to_monitor->0 < state.monitors.len()
            ==> monitor_to_activate(state, config, None) == Some(
            config.bind_to_monitor->0 as int,
        ),
        !(config.bind_to_monitor is Some && config.bind_to_monitor->0 < state.monitors.len())
            ==> monitor_to_activate(state, config, None) == state.focused_monitor(),
{
}

/// A spanning workspace that is activated becomes the first page of its own group, on any monitor.
/// A regular one is activated as it is declared.
pub proof fn law_spanning_workspace_is_activated_as_first_page(config: WorkspaceConfigView)
    ensures
        ({
            let active = activated_config(config);
            &&& active.name == config.name
            &&& active.display_name == config.display_name
            &&& active.keep_alive == config.keep_alive
            &&& active.monitors == config.monitors
            &&& config.monitors is None ==> active == config
            &&& config.monitors is Some ==> active.spanning_group == Some(config.name)
                && active.spanning_page == 1 && active.bind_to_monitor is None
        }),
{
}

/// An instance is part of its page, under its own name. It is shown under the group's display
/// name, with the page number behind a slash on further pages, and is bound to no monitor.
pub proof fn law_instance_is_part_of_its_page(
    group: WorkspaceConfigView,
    key: PageKeyView,
    name: Seq<char>,
)
    ensures
        ({
            let config = instance_config(group, key, name);
            let shown_as = match group.display_name {
                Some(display_name) => display_name,
                None => group.name,
            };
            &&& config.name == name
            &&& config.spanning_group == Some(group.name)
            &&& config.spanning_page >= 1
            &&& key.page >= 1 ==> config.spanning_page == key.page
            &&& config.monitors == group.monitors
            &&& config.bind_to_monitor is None
            &&& key.page <= 1 ==> config.display_name == Some(shown_as)
            &&& key.page > 1 ==> {
                let text = config.display_name->0;
                &&& config.display_name is Some
                &&& text.len() > shown_as.len() + 1
                &&& text.take(shown_as.len() as int) == shown_as
                &&& text[shown_as.len() as int] == '/'
                &&& crate::text::unsigned_value(text.skip(shown_as.len() as int + 1)) == Some(key.page)
            }
        }),
{
    if key.page > 1 {
        let config = instance_config(group, key, name);
        let shown_as = match group.display_name {
            Some(display_name) => display_name,
            None => group.name,
        };
        let digits = crate::text::decimal(key.page as nat);
        let text = config.display_name->0;
        crate::text::lemma_decimal_read_back(key.page as nat);
        crate::text::lemma_unsigned_read_back(key.page);
        assert(text.take(shown_as.len() as int) =~= shown_as);
        assert(text.skip(shown_as.len() as int + 1) =~= digits);
    }
}

/// A workspace is listed by its own config, or else by that of its group.
pub proof fn law_workspace_is_listed_by_its_config(
    configs: Seq<WorkspaceConfigView>,
    workspace: WorkspaceView,
    at: int,
)
    requires
        0 <= at < configs.len(),
    ensures
        configs[at].name == workspace.config.name && (forall|i: int|
            0 <= i < at ==> (#[trigger] configs[i]).name != workspace.config.name)
            ==> listed_position(configs, workspace) == Some(at),
        (forall|i: int|
            0 <= i < configs.len() ==> (#[trigger] configs[i]).name != workspace.config.name)
            && workspace.config.spanning_group == Some(configs[at].name) && (forall|i: int|
            0 <= i < at ==> (#[trigger] configs[i]).name != configs[at].name) ==> listed_position(
            configs,
            workspace,
        ) == Some(at),
        (forall|i: int|
            0 <= i < configs.len() ==> (#[trigger] configs[i]).name != workspace.config.name
                && workspace.config.spanning_group != Some(configs[i].name)) ==> listed_position(
            configs,
            workspace,
        ) is None,
{
    law_first_config_with_a_name_is_found(configs, workspace.config.name, 0);
    if let Some(group) = workspace.config.spanning_group {
        law_first_config_with_a_name_is_found(configs, group, 0);
    }
}

/// Workspaces are listed in the order of their configs, those without one first.
pub proof fn law_workspaces_are_listed_in_the_order_of_configs(
    configs: Seq<WorkspaceConfigView>,
    workspaces: Seq<WorkspaceView>,
    k: int,
    l: int,
)
    requires
        configs.len() <= usize::MAX,
        0 <= k < l < workspaces.len(),
    ensures
        sorted_workspaces(configs, workspaces).len() == workspaces.len(),
        ({
            let first = listed_position(configs, sorted_workspaces(configs, workspaces)[k]);
            let second = listed_position(configs, sorted_workspaces(configs, workspaces)[l]);
            match (first, second) {
                (Some(first), Some(second)) => first <= second,
                (Some(_), None) => false,
                (None, _) => true,
            }
        }),
{
    let ranked = ranked_workspaces(configs, workspaces);
    let order = stable_sorted(ranked);
    let sorted = sorted_workspaces(configs, workspaces);
    crate::stable_sort::lemma_sorting_keeps(ranked);
    crate::stable_sort::law_sorting_orders_and_keeps(ranked);
    assert(order[k].key.at_most(order[l].key));
    assert forall|i: int| 0 <= i < order.len() implies (#[trigger] order[i]).key
        == crate::user_config::listing_key(configs, sorted[i]) && sorted[i] == order[i].item by {
        assert(ranked.contains(order[i]));
        let j = choose|j: int| 0 <= j < ranked.len() && ranked[j] == order[i];
        assert(ranked[j].item == workspaces[j]);
    }
    law_first_config_with_a_name_is_found(configs, sorted[k].config.name, 0);
    law_first_config_with_a_name_is_found(configs, sorted[l].config.name, 0);
    if let Some(group) = sorted[k].config.spanning_group {
        law_first_config_with_a_name_is_found(configs, group, 0);
    }
    if let Some(group) = sorted[l].config.spanning_group {
        law_first_config_with_a_name_is_found(configs, group, 0);
    }
}

/// Without a name, an inactive workspace is activated: one that is bound to the monitor that is
/// asked for, or else the preferred one. There is one whenever any workspace is inactive.
pub proof fn law_any_inactive_workspace_is_activated_without_a_name(
    state: StateView,
    configs: Seq<WorkspaceConfigView>,
    monitor: Option<int>,
    i: int,
)
    ensures
        config_to_activate(state, configs, None, monitor) matches Ok(config) ==> {
            &&& configs.contains(config)
            &&& forall|w: int|
                0 <= w < state.workspaces().len() ==> (
                #[trigger] state.workspaces()[w]).config.name != config.name
        },
        config_to_activate(state, configs, None, monitor) matches Err(error) ==> error
            == WmErrorView::NoWorkspaceConfig,
        0 <= i < configs.len() && (forall|w: int|
            0 <= w < state.workspaces().len() ==> (#[trigger] state.workspaces()[w]).config.name
                != configs[i].name) ==> {
            let result = config_to_activate(state, configs, None, monitor);
            &&& result is Ok
            &&& monitor is Some && configs[i].bind_to_monitor is Some
                && configs[i].bind_to_monitor->0 == monitor->0
                ==> result->Ok_0.bind_to_monitor is Some && result->Ok_0.bind_to_monitor->0
                == monitor->0
            &&& configs[i].bind_to_monitor is None ==> result->Ok_0.bind_to_monitor is None
                || monitor is Some && result->Ok_0.bind_to_monitor->0 == monitor->0
        },
{
    let inactive = inactive_configs(configs, state.workspaces(), configs.len());
    let origins = law_inactive_configs_have_no_workspace(
        configs,
        state.workspaces(),
        configs.len(),
    );
    law_unbound_config_is_preferred(inactive);
    if let Some(m) = monitor {
        lemma_bound(inactive, m, 0);
    }
    if let Ok(config) = config_to_activate(state, configs, None, monitor) {
        assert(exists|at: int| 0 <= at < inactive.len() && #[trigger] inactive[at] == config);
        let at = choose|at: int| 0 <= at < inactive.len() && #[trigger] inactive[at] == config;
        assert(configs[origins[at]] == config);
        assert(origins.contains(origins[at]));
    }
    if 0 <= i < configs.len() && (forall|w: int|
        0 <= w < state.workspaces().len() ==> (#[trigger] state.workspaces()[w]).config.name
            != configs[i].name) {
        assert(origins.contains(i));
        let k = choose|k: int| 0 <= k < origins.len() && origins[k] == i;
        assert(inactive[k] == configs[i]);
    }
}

} // verus!
