//! The user config, and the workspaces, rules and keybindings that follow from it.
use std::collections::HashMap;
use vstd::prelude::*;

use crate::config::{
    keybindings_view, BindingModeConfig, FloatingStateConfig, KeybindingConfig,
    KeybindingConfigView, ParsedConfig, ParsedConfigView,
};
use crate::container::{Window, WindowView};
use crate::monitor::position_view;
use crate::stable_sort::{map_items, sort_ranked, stable_sorted, Ranked, SortKey};
use crate::text::{find_last, same_text, text_view};
use crate::window_rules::{
    has_command, has_rule, matcher_decided_by, rules_view, InvokeCommand, InvokeCommandView,
    MatchType, MatchTypeView, WindowMatchConfig, WindowMatchConfigView, WindowRuleConfig,
    WindowRuleConfigView, WindowRuleEvent,
};
use crate::workspace::{workspaces_view, Workspace, WorkspaceView};
use crate::workspace_config::{WorkspaceConfig, WorkspaceConfigView};

verus! {

broadcast use {vstd::std_specs::hash::group_hash_axioms, vstd::string::group_string_axioms};

#[derive(Debug)]
pub struct UserConfig {
    /// Path to the user config file.
    pub path: String,
    /// Parsed user config value.
    pub value: ParsedConfig,
    /// Unparsed user config string.
    pub value_str: String,
    /// Window rules by the key of the event that they are run on.
    pub window_rules_by_event: HashMap<u64, Vec<WindowRuleConfig>>,
}

/// View of a list of borrowed workspaces.
pub open spec fn borrowed_workspaces(workspaces: Seq<&Workspace>) -> Seq<WorkspaceView> {
    workspaces.map_values(|workspace: &Workspace| workspace@)
}

/// View of a list of borrowed configs.
pub open spec fn borrowed_configs(configs: Seq<&WorkspaceConfig>) -> Seq<WorkspaceConfigView> {
    configs.map_values(|config: &WorkspaceConfig| config@)
}

/// View of an optional borrowed config.
pub open spec fn borrowed_config(config: Option<&WorkspaceConfig>) -> Option<WorkspaceConfigView> {
    match config {
        Some(config) => Some(config@),
        None => None,
    }
}

/// First config from `from` on with the given name.
pub open spec fn config_position(
    configs: Seq<WorkspaceConfigView>,
    name: Seq<char>,
    from: int,
) -> Option<int>
    decreases configs.len() - from,
{
    if from < 0 || from >= configs.len() {
        None
    } else if configs[from].name == name {
        Some(from)
    } else {
        config_position(configs, name, from + 1)
    }
}

/// First config from `from` on of a spanning workspace with the given name.
pub open spec fn spanning_config(
    configs: Seq<WorkspaceConfigView>,
    name: Seq<char>,
    from: int,
) -> Option<WorkspaceConfigView>
    decreases configs.len() - from,
{
    if from < 0 || from >= configs.len() {
        None
    } else if configs[from].name == name && configs[from].monitors is Some {
        Some(configs[from])
    } else {
        spanning_config(configs, name, from + 1)
    }
}

/// The configs of spanning workspaces among the first `count` configs.
pub open spec fn spanning_configs(configs: Seq<WorkspaceConfigView>, count: nat) -> Seq<
    WorkspaceConfigView,
>
    decreases count,
{
    if count == 0 {
        Seq::empty()
    } else {
        let rest = spanning_configs(configs, (count - 1) as nat);
        if configs[count - 1].monitors is Some {
            rest.push(configs[count - 1])
        } else {
            rest
        }
    }
}

/// Whether a workspace with the given name is among the given ones.
pub open spec fn is_active(workspaces: Seq<WorkspaceView>, name: Seq<char>) -> bool {
    exists|i: int| 0 <= i < workspaces.len() && (#[trigger] workspaces[i]).config.name == name
}

/// Those of the first `count` configs whose workspace isn't active.
pub open spec fn inactive_configs(
    configs: Seq<WorkspaceConfigView>,
    workspaces: Seq<WorkspaceView>,
    count: nat,
) -> Seq<WorkspaceConfigView>
    decreases count,
{
    if count == 0 {
        Seq::empty()
    } else {
        let rest = inactive_configs(configs, workspaces, (count - 1) as nat);
        if is_active(workspaces, configs[count - 1].name) {
            rest
        } else {
            rest.push(configs[count - 1])
        }
    }
}

/// First config from `from` on that is bound to the monitor at the given position.
pub open spec fn bound_config(
    configs: Seq<WorkspaceConfigView>,
    monitor: int,
    from: int,
) -> Option<WorkspaceConfigView>
    decreases configs.len() - from,
{
    if from < 0 || from >= configs.len() {
        None
    } else if configs[from].bind_to_monitor is Some && configs[from].bind_to_monitor->0
        == monitor {
        Some(configs[from])
    } else {
        bound_config(configs, monitor, from + 1)
    }
}

/// First config from `from` on that isn't bound to a monitor.
pub open spec fn unbound_config(configs: Seq<WorkspaceConfigView>, from: int) -> Option<
    WorkspaceConfigView,
>
    decreases configs.len() - from,
{
    if from < 0 || from >= configs.len() {
        None
    } else if configs[from].bind_to_monitor is None {
        Some(configs[from])
    } else {
        unbound_config(configs, from + 1)
    }
}

/// First config, if any, that isn't bound to a monitor, or else the first config at all.
pub open spec fn preferred_config(configs: Seq<WorkspaceConfigView>) -> Option<
    WorkspaceConfigView,
> {
    match unbound_config(configs, 0) {
        Some(config) => Some(config),
        None => if configs.len() > 0 {
            Some(configs[0])
        } else {
            None
        },
    }
}

/// First config that is bound to a monitor, or else the preferred one.
pub open spec fn suitable_config(
    configs: Seq<WorkspaceConfigView>,
    monitor: Option<int>,
) -> Option<WorkspaceConfigView> {
    match monitor {
        Some(monitor) => match bound_config(configs, monitor, 0) {
            Some(config) => Some(config),
            None => preferred_config(configs),
        },
        None => preferred_config(configs),
    }
}

/// The configs of regular workspaces among the first `count` configs.
pub open spec fn regular_configs(configs: Seq<WorkspaceConfigView>, count: nat) -> Seq<
    WorkspaceConfigView,
>
    decreases count,
{
    if count == 0 {
        Seq::empty()
    } else {
        let rest = regular_configs(configs, (count - 1) as nat);
        if configs[count - 1].monitors is None {
            rest.push(configs[count - 1])
        } else {
            rest
        }
    }
}

/// First inactive config of a regular workspace that suits a monitor.
pub open spec fn regular_config(
    configs: Seq<WorkspaceConfigView>,
    workspaces: Seq<WorkspaceView>,
    monitor: int,
) -> Option<WorkspaceConfigView> {
    let inactive = inactive_configs(configs, workspaces, configs.len());
    suitable_config(regular_configs(inactive, inactive.len()), Some(monitor))
}

/// Position that a workspace is listed at: that of its config, or else that of its group's
/// config. `None` for workspaces with neither, which are listed first.
pub open spec fn listed_position(
    configs: Seq<WorkspaceConfigView>,
    workspace: WorkspaceView,
) -> Option<int> {
    match config_position(configs, workspace.config.name, 0) {
        Some(position) => Some(position),
        None => match workspace.config.spanning_group {
            Some(group) => config_position(configs, group, 0),
            None => None,
        },
    }
}

pub open spec fn listing_key(
    configs: Seq<WorkspaceConfigView>,
    workspace: WorkspaceView,
) -> SortKey {
    SortKey {
        a: match listed_position(configs, workspace) {
            Some(position) => position as i128,
            None => (-1) as i128,
        },
        b: 0,
        c: 0,
        d: 0,
    }
}

/// The workspaces with the keys that they are listed by.
pub open spec fn ranked_workspaces(
    configs: Seq<WorkspaceConfigView>,
    workspaces: Seq<WorkspaceView>,
) -> Seq<Ranked<WorkspaceView>> {
    workspaces.map_values(
        |workspace: WorkspaceView|
            Ranked { key: listing_key(configs, workspace), item: workspace },
    )
}

/// The workspaces in the order in which they are listed.
pub open spec fn sorted_workspaces(
    configs: Seq<WorkspaceConfigView>,
    workspaces: Seq<WorkspaceView>,
) -> Seq<WorkspaceView> {
    stable_sorted(ranked_workspaces(configs, workspaces)).map_values(
        |entry: Ranked<WorkspaceView>| entry.item,
    )
}

impl UserConfig {
    /// Configs of workspaces that aren't active, in the order of the config.
    pub fn inactive_workspace_configs(&self, active_workspaces: &Vec<&Workspace>) -> (configs: Vec<
        &WorkspaceConfig,
    >)
        ensures
            borrowed_configs(configs@) == inactive_configs(
                self.value@.workspaces,
                borrowed_workspaces(active_workspaces@),
                self.value@.workspaces.len(),
            ),
    {
        let mut configs: Vec<&WorkspaceConfig> = Vec::new();
        let mut i: usize = 0;
        assert(borrowed_configs(configs@) =~= Seq::empty());
        while i < self.value.workspaces.len()
            invariant
                i <= self.value.workspaces@.len(),
                borrowed_configs(configs@) == inactive_configs(
                    self.value@.workspaces,
                    borrowed_workspaces(active_workspaces@),
                    i as nat,
                ),
            decreases self.value.workspaces@.len() - i,
        {
            let config = &self.value.workspaces[i];
            let ghost before = configs@;
            assert(self.value@.workspaces[i as int] == config@);
            if !workspace_is_active(active_workspaces, config.name.as_str()) {
                configs.push(config);
                assert(borrowed_configs(configs@) =~= borrowed_configs(before).push(config@));
            }
            i = i + 1;
        }
        configs
    }

    /// First inactive workspace config that is bound to the monitor at the given position.
    pub fn workspace_config_for_monitor(
        &self,
        monitor_index: usize,
        active_workspaces: &Vec<&Workspace>,
    ) -> (config: Option<&WorkspaceConfig>)
        ensures
            borrowed_config(config) == bound_config(
                inactive_configs(
                    self.value@.workspaces,
                    borrowed_workspaces(active_workspaces@),
                    self.value@.workspaces.len(),
                ),
                monitor_index as int,
                0,
            ),
    {
        let inactive = self.inactive_workspace_configs(active_workspaces);
        first_bound(&inactive, monitor_index)
    }

    /// Gets the first inactive workspace config, prioritizing configs that don't have a monitor
    /// binding.
    pub fn next_inactive_workspace_config(&self, active_workspaces: &Vec<&Workspace>) -> (config:
        Option<&WorkspaceConfig>)
        ensures
            borrowed_config(config) == preferred_config(
                inactive_configs(
                    self.value@.workspaces,
                    borrowed_workspaces(active_workspaces@),
                    self.value@.workspaces.len(),
                ),
            ),
    {
        let inactive = self.inactive_workspace_configs(active_workspaces);
        first_preferred(&inactive)
    }

    /// First inactive config of a regular workspace that suits a monitor: one that is bound to
    /// it, or else one without a monitor binding, or else any.
    pub fn regular_config_for_monitor(
        &self,
        monitor_index: usize,
        active_workspaces: &Vec<&Workspace>,
    ) -> (config: Option<&WorkspaceConfig>)
        ensures
            borrowed_config(config) == regular_config(
                self.value@.workspaces,
                borrowed_workspaces(active_workspaces@),
                monitor_index as int,
            ),
    {
        let inactive = self.inactive_workspace_configs(active_workspaces);
        let ghost listed = borrowed_configs(inactive@);
        let mut regular: Vec<&WorkspaceConfig> = Vec::new();
        let mut i: usize = 0;
        assert(borrowed_configs(regular@) =~= Seq::empty());
        while i < inactive.len()
            invariant
                i <= inactive@.len(),
                listed == borrowed_configs(inactive@),
                borrowed_configs(regular@) == regular_configs(listed, i as nat),
            decreases inactive@.len() - i,
        {
            let config = inactive[i];
            assert(listed[i as int] == config@);
            let ghost before = regular@;
            if config.monitors.is_none() {
                regular.push(config);
                assert(borrowed_configs(regular@) =~= borrowed_configs(before).push(config@));
            }
            i = i + 1;
        }
        match first_bound(&regular, monitor_index) {
            Some(config) => Some(config),
            None => first_preferred(&regular),
        }
    }

    /// Config for a spanning workspace group with the given name, if any.
    pub fn spanning_workspace_config(&self, workspace_name: &str) -> (config: Option<
        &WorkspaceConfig,
    >)
        ensures
            borrowed_config(config) == spanning_config(
                self.value@.workspaces,
                workspace_name@,
                0,
            ),
    {
        let mut i: usize = 0;
        while i < self.value.workspaces.len()
            invariant
                i <= self.value.workspaces@.len(),
                spanning_config(self.value@.workspaces, workspace_name@, 0) == spanning_config(
                    self.value@.workspaces,
                    workspace_name@,
                    i as int,
                ),
            decreases self.value.workspaces@.len() - i,
        {
            let config = &self.value.workspaces[i];
            assert(self.value@.workspaces[i as int] == config@);
            if config.monitors.is_some() && same_text(config.name.as_str(), workspace_name) {
                return Some(config);
            }
            i = i + 1;
        }
        None
    }

    /// Configs of all spanning workspace groups.
    pub fn spanning_workspace_configs(&self) -> (configs: Vec<&WorkspaceConfig>)
        ensures
            borrowed_configs(configs@) == spanning_configs(
                self.value@.workspaces,
                self.value@.workspaces.len(),
            ),
    {
        let mut configs: Vec<&WorkspaceConfig> = Vec::new();
        let mut i: usize = 0;
        assert(borrowed_configs(configs@) =~= Seq::empty());
        while i < self.value.workspaces.len()
            invariant
                i <= self.value.workspaces@.len(),
                borrowed_configs(configs@) == spanning_configs(self.value@.workspaces, i as nat),
            decreases self.value.workspaces@.len() - i,
        {
            let config = &self.value.workspaces[i];
            let ghost before = configs@;
            assert(self.value@.workspaces[i as int] == config@);
            if config.monitors.is_some() {
                configs.push(config);
                assert(borrowed_configs(configs@) =~= borrowed_configs(before).push(config@));
            }
            i = i + 1;
        }
        configs
    }

    /// Position of the config with the given name.
    pub fn workspace_config_index(&self, workspace_name: &str) -> (index: Option<usize>)
        ensures
            position_view(index) == config_position(self.value@.workspaces, workspace_name@, 0),
    {
        let mut i: usize = 0;
        while i < self.value.workspaces.len()
            invariant
                i <= self.value.workspaces@.len(),
                config_position(self.value@.workspaces, workspace_name@, 0) == config_position(
                    self.value@.workspaces,
                    workspace_name@,
                    i as int,
                ),
            decreases self.value.workspaces@.len() - i,
        {
            let config = &self.value.workspaces[i];
            assert(self.value@.workspaces[i as int] == config@);
            if same_text(config.name.as_str(), workspace_name) {
                return Some(i);
            }
            i = i + 1;
        }
        None
    }

    fn listing_key_of(&self, workspace: &Workspace) -> (key: SortKey)
        ensures
            key == listing_key(self.value@.workspaces, workspace@),
    {
        let position = match self.workspace_config_index(workspace.config.name.as_str()) {
            Some(position) => Some(position),
            None => match &workspace.config.spanning_group {
                Some(group) => self.workspace_config_index(group.as_str()),
                None => None,
            },
        };
        let a: i128 = match position {
            Some(position) => position as i128,
            None => -1,
        };
        SortKey { a, b: 0, c: 0, d: 0 }
    }

    /// Puts workspaces in the order of their configs. Synthesized instances of spanning
    /// workspaces aren't part of the config, so they go by their group's config.
    pub fn sort_workspaces(&self, workspaces: &mut Vec<Workspace>)
        ensures
            workspaces_view(final(workspaces)@) == sorted_workspaces(
                self.value@.workspaces,
                workspaces_view(old(workspaces)@),
            ),
    {
        let ghost configs = self.value@.workspaces;
        let ghost input = workspaces_view(workspaces@);
        let mut entries: Vec<Ranked<Workspace>> = Vec::new();
        let ghost to_view = |workspace: Workspace| workspace@;
        let ghost mut done: int = 0;
        while workspaces.len() > 0
            invariant
                0 <= done <= input.len(),
                workspaces_view(workspaces@) == input.skip(done),
                entries@.len() == done,
                configs == self.value@.workspaces,
                forall|i: int|
                    0 <= i < done ==> (#[trigger] entries@[i]).item@ == input[i] && entries@[i].key
                        == listing_key(configs, input[i]),
            decreases workspaces@.len(),
        {
            assert(workspaces_view(workspaces@)[0] == workspaces@[0]@);
            let ghost before = workspaces@;
            let workspace = workspaces.remove(0);
            assert(workspace@ == input.skip(done)[0]);
            assert(workspaces_view(workspaces@) =~= workspaces_view(before).skip(1));
            assert(workspaces_view(before).skip(1) =~= input.skip(done + 1));
            let key = self.listing_key_of(&workspace);
            entries.push(Ranked { key, item: workspace });
            proof {
                done = done + 1;
            }
        }
        let ghost ranked = entries@;
        assert(map_items(ranked, to_view) =~= ranked_workspaces(configs, input));
        let mut sorted = sort_ranked(entries);
        proof {
            crate::stable_sort::lemma_sorting_maps(ranked, to_view);
        }
        let ghost result = sorted@;
        let ghost mut taken: int = 0;
        while sorted.len() > 0
            invariant
                0 <= taken <= result.len(),
                sorted@ == result.skip(taken),
                workspaces@.len() == taken,
                forall|i: int|
                    0 <= i < taken ==> (#[trigger] workspaces@[i])@ == result[i].item@,
            decreases sorted@.len(),
        {
            let entry = sorted.remove(0);
            assert(entry == result[taken]);
            assert(sorted@ =~= result.skip(taken + 1));
            workspaces.push(entry.item);
            proof {
                taken = taken + 1;
            }
        }
        proof {
            let spec = stable_sorted(ranked_workspaces(configs, input));
            assert(spec == map_items(result, to_view));
            assert(workspaces_view(workspaces@) =~= spec.map_values(
                |entry: Ranked<WorkspaceView>| entry.item,
            ));
        }
    }
}

/// First of the given configs that is bound to the monitor at the given position.
fn first_bound<'a>(configs: &Vec<&'a WorkspaceConfig>, monitor_index: usize) -> (config: Option<
    &'a WorkspaceConfig,
>)
    ensures
        borrowed_config(config) == bound_config(
            borrowed_configs(configs@),
            monitor_index as int,
            0,
        ),
{
    let mut i: usize = 0;
    while i < configs.len()
        invariant
            i <= configs@.len(),
            bound_config(borrowed_configs(configs@), monitor_index as int, 0) == bound_config(
                borrowed_configs(configs@),
                monitor_index as int,
                i as int,
            ),
        decreases configs@.len() - i,
    {
        let config = configs[i];
        assert(borrowed_configs(configs@)[i as int] == config@);
        if let Some(index) = config.bind_to_monitor {
            if index as usize == monitor_index {
                return Some(config);
            }
        }
        i = i + 1;
    }
    None
}

/// First of the given configs, prioritizing configs that don't have a monitor binding.
fn first_preferred<'a>(configs: &Vec<&'a WorkspaceConfig>) -> (config: Option<&'a WorkspaceConfig>)
    ensures
        borrowed_config(config) == preferred_config(borrowed_configs(configs@)),
{
    let mut i: usize = 0;
    while i < configs.len()
        invariant
            i <= configs@.len(),
            unbound_config(borrowed_configs(configs@), 0) == unbound_config(
                borrowed_configs(configs@),
                i as int,
            ),
        decreases configs@.len() - i,
    {
        let config = configs[i];
        assert(borrowed_configs(configs@)[i as int] == config@);
        if config.bind_to_monitor.is_none() {
            return Some(config);
        }
        i = i + 1;
    }
    if configs.len() > 0 {
        assert(borrowed_configs(configs@)[0] == configs@[0]@);
        Some(configs[0])
    } else {
        None
    }
}

/// Whether a workspace with the given name is among the given ones.
pub fn workspace_is_active(workspaces: &Vec<&Workspace>, name: &str) -> (active: bool)
    ensures
        active == is_active(borrowed_workspaces(workspaces@), name@),
{
    let mut i: usize = 0;
    while i < workspaces.len()
        invariant
            i <= workspaces@.len(),
            forall|j: int|
                0 <= j < i ==> (#[trigger] borrowed_workspaces(workspaces@)[j]).config.name != name@,
        decreases workspaces@.len() - i,
    {
        assert(borrowed_workspaces(workspaces@)[i as int] == workspaces@[i as int]@);
        if same_text(workspaces[i].config.name.as_str(), name) {
            return true;
        }
        i = i + 1;
    }
    false
}

/// Matches windows of a class.
pub open spec fn class_equals(name: Seq<char>) -> WindowMatchConfigView {
    WindowMatchConfigView {
        window_process: None,
        window_class: Some(MatchTypeView::Equals { equals: name }),
        window_title: None,
    }
}

/// Matches windows of a process.
pub open spec fn process_equals(name: Seq<char>) -> WindowMatchConfigView {
    WindowMatchConfigView {
        window_process: Some(MatchTypeView::Equals { equals: name }),
        window_class: None,
        window_title: None,
    }
}

/// Rules that apply whatever the user's config says: system dialogs float, and parts of the
/// shell are ignored.
pub open spec fn default_rules(floating: FloatingStateConfig) -> Seq<WindowRuleConfigView> {
    seq![
        WindowRuleConfigView {
            commands: seq![
                InvokeCommandView::SetFloating {
                    centered: Some(floating.centered),
                    shown_on_top: Some(floating.shown_on_top),
                    x_pos: None,
                    y_pos: None,
                    width: None,
                    height: None,
                },
            ],
            match_window: seq![class_equals("OperationStatusWindow"@), class_equals("#32770"@)],
            on: seq![WindowRuleEvent::Manage],
            run_once: true,
        },
        WindowRuleConfigView {
            commands: seq![InvokeCommandView::Ignore],
            match_window: seq![
                process_equals("SearchApp"@),
                process_equals("SearchHost"@),
                process_equals("ShellExperienceHost"@),
                process_equals("StartMenuExperienceHost"@),
                process_equals("ScreenClippingHost"@),
                process_equals("LockApp"@),
            ],
            on: seq![WindowRuleEvent::Manage],
            run_once: true,
        },
    ]
}

fn match_class(name: &str) -> (config: WindowMatchConfig)
    ensures
        config@ == class_equals(name@),
{
    WindowMatchConfig {
        window_process: None,
        window_class: Some(MatchType::Equals { equals: name.to_owned() }),
        window_title: None,
    }
}

fn match_process(name: &str) -> (config: WindowMatchConfig)
    ensures
        config@ == process_equals(name@),
{
    WindowMatchConfig {
        window_process: Some(MatchType::Equals { equals: name.to_owned() }),
        window_class: None,
        window_title: None,
    }
}

fn default_float_rule(floating_defaults: &FloatingStateConfig) -> (rule: WindowRuleConfig)
    ensures
        rule@ == default_rules(*floating_defaults)[0],
{
    let command = InvokeCommand::SetFloating {
        centered: Some(floating_defaults.centered),
        shown_on_top: Some(floating_defaults.shown_on_top),
        x_pos: None,
        y_pos: None,
        width: None,
        height: None,
    };
    let commands: Vec<InvokeCommand> = vec![command];
    let match_window: Vec<WindowMatchConfig> = vec![
        // W10/W11 system dialog shown when moving and deleting files.
        match_class("OperationStatusWindow"),
        // W10/W11 system dialogs (e.g. File Explorer save/open dialog).
        match_class("#32770"),
    ];
    let on: Vec<WindowRuleEvent> = vec![WindowRuleEvent::Manage];
    let rule = WindowRuleConfig { commands, match_window, on, run_once: true };
    let ghost expected = default_rules(*floating_defaults)[0];
    assert(rule@.commands =~= expected.commands);
    assert(rule@.match_window =~= expected.match_window);
    assert(rule@.on =~= expected.on);
    rule
}

fn default_ignore_rule(floating_defaults: &FloatingStateConfig) -> (rule: WindowRuleConfig)
    ensures
        rule@ == default_rules(*floating_defaults)[1],
{
    let commands: Vec<InvokeCommand> = vec![InvokeCommand::Ignore];
    let match_window: Vec<WindowMatchConfig> = vec![
        match_process("SearchApp"),
        match_process("SearchHost"),
        match_process("ShellExperienceHost"),
        // W10/11 start menu.
        match_process("StartMenuExperienceHost"),
        // W10/11 screen snipping tool.
        match_process("ScreenClippingHost"),
        // W11 lock screen.
        match_process("LockApp"),
    ];
    let on: Vec<WindowRuleEvent> = vec![WindowRuleEvent::Manage];
    let rule = WindowRuleConfig { commands, match_window, on, run_once: true };
    let ghost expected = default_rules(*floating_defaults)[1];
    assert(rule@.commands =~= expected.commands);
    assert(rule@.match_window =~= expected.match_window);
    assert(rule@.on =~= expected.on);
    rule
}

/// The first `count` of a rule's events, each of them that is the given one standing for the
/// rule.
pub open spec fn rule_runs(rule: WindowRuleConfigView, event: WindowRuleEvent, count: nat) -> Seq<
    WindowRuleConfigView,
>
    decreases count,
{
    if count == 0 {
        Seq::empty()
    } else {
        let rest = rule_runs(rule, event, (count - 1) as nat);
        if rule.on[count - 1] == event {
            rest.push(rule)
        } else {
            rest
        }
    }
}

/// Those of the first `count` rules that are run on an event, in order. A rule that lists the
/// event several times is run as often.
pub open spec fn rules_on(
    rules: Seq<WindowRuleConfigView>,
    event: WindowRuleEvent,
    count: nat,
) -> Seq<WindowRuleConfigView>
    decreases count,
{
    if count == 0 {
        Seq::empty()
    } else {
        rules_on(rules, event, (count - 1) as nat) + rule_runs(
            rules[count - 1],
            event,
            rules[count - 1].on.len(),
        )
    }
}

/// User-defined window rules, followed by the default ones.
pub open spec fn all_rules(value: ParsedConfigView) -> Seq<WindowRuleConfigView> {
    value.window_rules + default_rules(value.window_behavior.state_defaults.floating)
}

/// Key of an event within the map of rules.
pub open spec fn spec_event_key(event: WindowRuleEvent) -> u64 {
    match event {
        WindowRuleEvent::Focus => 0,
        WindowRuleEvent::Manage => 1,
        WindowRuleEvent::TitleChange => 2,
    }
}

fn event_key(event: &WindowRuleEvent) -> (key: u64)
    ensures
        key == spec_event_key(*event),
{
    match event {
        WindowRuleEvent::Focus => 0,
        WindowRuleEvent::Manage => 1,
        WindowRuleEvent::TitleChange => 2,
    }
}

/// Rules that a map of rules holds for an event.
pub open spec fn mapped_rules(
    rules: Map<u64, Vec<WindowRuleConfig>>,
    event: WindowRuleEvent,
) -> Seq<WindowRuleConfigView> {
    if rules.contains_key(spec_event_key(event)) {
        rules_view(rules[spec_event_key(event)]@)
    } else {
        Seq::empty()
    }
}

/// Whether a map holds the rules that follow from a config for each event.
pub open spec fn maps_rules(
    rules: Map<u64, Vec<WindowRuleConfig>>,
    value: ParsedConfigView,
) -> bool {
    forall|event: WindowRuleEvent| #[trigger]
        mapped_rules(rules, event) == rules_on(all_rules(value), event, all_rules(value).len())
}

/// Adds a rule to those of an event.
fn add_rule(
    rules: &mut HashMap<u64, Vec<WindowRuleConfig>>,
    event: &WindowRuleEvent,
    rule: WindowRuleConfig,
)
    ensures
        forall|other: WindowRuleEvent| #[trigger]
            mapped_rules(final(rules)@, other) == if other == *event {
                mapped_rules(old(rules)@, other).push(rule@)
            } else {
                mapped_rules(old(rules)@, other)
            },
{
    let ghost before = rules@;
    let key = event_key(event);
    let mut of_event = match rules.remove(&key) {
        Some(of_event) => of_event,
        None => Vec::new(),
    };
    let ghost listed = of_event@;
    assert(rules_view(listed) =~= mapped_rules(before, *event));
    of_event.push(rule);
    assert(rules_view(of_event@) =~= rules_view(listed).push(rule@));
    rules.insert(key, of_event);
}

impl UserConfig {
    /// Creates a config from what was read from its file.
    pub fn new(path: String, value: ParsedConfig, value_str: String) -> (config: UserConfig)
        ensures
            config.path@ == path@,
            config.value@ == value@,
            config.value_str@ == value_str@,
            maps_rules(config.window_rules_by_event@, value@),
    {
        let window_rules_by_event = UserConfig::window_rules_by_event(&value);
        UserConfig { path, value, value_str, window_rules_by_event }
    }

    /// Path of the config file: the one asked for, or else the one that the environment gives,
    /// or else the default one.
    pub fn config_path(
        asked_for: Option<String>,
        from_environment: Option<String>,
        default_path: String,
    ) -> (path: String)
        ensures
            path@ == match (text_view(asked_for), text_view(from_environment)) {
                (Some(path), _) => path,
                (None, Some(path)) => path,
                (None, None) => default_path@,
            },
    {
        match (asked_for, from_environment) {
            (Some(path), _) => path,
            (None, Some(path)) => path,
            (None, None) => default_path,
        }
    }

    /// Takes over what was read from the config file anew.
    pub fn reload(&mut self, value: ParsedConfig, value_str: String)
        ensures
            final(self).path@ == old(self).path@,
            final(self).value@ == value@,
            final(self).value_str@ == value_str@,
            maps_rules(final(self).window_rules_by_event@, value@),
    {
        self.window_rules_by_event = UserConfig::window_rules_by_event(&value);
        self.value = value;
        self.value_str = value_str;
    }

    fn default_window_rules(config_value: &ParsedConfig) -> (rules: Vec<WindowRuleConfig>)
        ensures
            rules_view(rules@) == default_rules(
                config_value@.window_behavior.state_defaults.floating,
            ),
    {
        let floating_defaults = &config_value.window_behavior.state_defaults.floating;
        let rules: Vec<WindowRuleConfig> = vec![
            default_float_rule(floating_defaults),
            default_ignore_rule(floating_defaults),
        ];
        assert(rules_view(rules@) =~= default_rules(*floating_defaults));
        rules
    }

    /// Window rules by the event that they are run on. Combines user-defined window rules with
    /// the default ones.
    fn window_rules_by_event(config_value: &ParsedConfig) -> (rules: HashMap<
        u64,
        Vec<WindowRuleConfig>,
    >)
        ensures
            maps_rules(rules@, config_value@),
    {
        let mut by_event: HashMap<u64, Vec<WindowRuleConfig>> = HashMap::new();
        let default_window_rules = UserConfig::default_window_rules(config_value);
        let user_count = config_value.window_rules.len();
        let ghost all = all_rules(config_value@);
        let mut i: usize = 0;
        while i < user_count
            invariant
                i <= user_count,
                user_count == config_value.window_rules@.len(),
                all == all_rules(config_value@),
                forall|event: WindowRuleEvent| #[trigger]
                    mapped_rules(by_event@, event) == rules_on(all, event, i as nat),
            decreases user_count - i,
        {
            let rule = &config_value.window_rules[i];
            assert(config_value@.window_rules[i as int] == rule@);
            assert(all[i as int] == rule@);
            add_rule_on_events(&mut by_event, rule);
            i = i + 1;
        }
        let mut k: usize = 0;
        while k < default_window_rules.len()
            invariant
                k <= default_window_rules@.len(),
                user_count == config_value.window_rules@.len(),
                all == all_rules(config_value@),
                rules_view(default_window_rules@) == default_rules(
                    config_value@.window_behavior.state_defaults.floating,
                ),
                forall|event: WindowRuleEvent| #[trigger]
                    mapped_rules(by_event@, event) == rules_on(
                        all,
                        event,
                        (user_count + k) as nat,
                    ),
            decreases default_window_rules@.len() - k,
        {
            let rule = &default_window_rules[k];
            assert(rules_view(default_window_rules@)[k as int] == rule@);
            assert(all[user_count + k] == rule@);
            add_rule_on_events(&mut by_event, rule);
            k = k + 1;
        }
        by_event
    }

    /// Window rules that should be applied to the window when the given event occurs.
    ///
    /// `matcher` decides whether a pattern matches a text.
    pub fn pending_window_rules<F: Fn(&str, &str) -> bool>(
        &self,
        window: &Window,
        event: &WindowRuleEvent,
        matcher: &F,
    ) -> (rules: Vec<WindowRuleConfig>)
        requires
            forall|pattern: &str, text: &str| call_requires(*matcher, (pattern, text)),
        ensures
            forall|m: spec_fn(Seq<char>, Seq<char>) -> bool|
                matcher_decided_by(*matcher, m) ==> rules_view(rules@) == #[trigger] pending_rules(
                    mapped_rules(self.window_rules_by_event@, *event),
                    window@,
                    m,
                    mapped_rules(self.window_rules_by_event@, *event).len(),
                ),
    {
        let mut pending: Vec<WindowRuleConfig> = Vec::new();
        assert(rules_view(pending@) =~= Seq::empty());
        let ghost mapped = mapped_rules(self.window_rules_by_event@, *event);
        let key = event_key(event);
        if let Some(of_event) = self.window_rules_by_event.get(&key) {
            assert(mapped == rules_view(of_event@));
            let mut i: usize = 0;
            while i < of_event.len()
                invariant
                    i <= of_event@.len(),
                    mapped == rules_view(of_event@),
                    forall|pattern: &str, text: &str| call_requires(*matcher, (pattern, text)),
                    forall|m: spec_fn(Seq<char>, Seq<char>) -> bool|
                        matcher_decided_by(*matcher, m) ==> rules_view(pending@)
                            == #[trigger] pending_rules(mapped, window@, m, i as nat),
                decreases of_event@.len() - i,
            {
                let rule = &of_event[i];
                assert(mapped[i as int] == rule@);
                let ghost before = pending@;
                // Skip if window has already ran the rule.
                let is_pending = !has_rule(&window.done_window_rules, rule) && rule_matches(
                    rule,
                    window,
                    matcher,
                );
                if is_pending {
                    let copy = rule.clone();
                    pending.push(copy);
                    assert(rules_view(pending@) =~= rules_view(before).push(rule@));
                }
                let ghost done = i as nat;
                i = i + 1;
                assert forall|m: spec_fn(Seq<char>, Seq<char>) -> bool|
                    matcher_decided_by(*matcher, m) implies rules_view(pending@)
                    == #[trigger] pending_rules(mapped, window@, m, i as nat) by {
                    let rest = pending_rules(mapped, window@, m, done);
                    assert(rules_view(before) == rest);
                    assert(is_pending == is_pending_rule(rule@, window@, m));
                    assert(mapped[i as nat - 1] == rule@);
                    assert((i as nat - 1) as nat == done);
                }
            }
        }
        pending
    }

    /// Keybinding configs that should be active for the current binding mode and pause state.
    ///
    /// When paused, only the configs with `InvokeCommand::WmTogglePause` are returned so that
    /// unpausing remains possible.
    pub fn active_keybinding_configs(
        &self,
        binding_modes: &Vec<BindingModeConfig>,
        is_paused: bool,
    ) -> (configs: Vec<KeybindingConfig>)
        ensures
            keybindings_view(configs@) == ({
                let source = if binding_modes@.len() > 0 {
                    keybindings_view(binding_modes@[0].keybindings@)
                } else {
                    self.value@.keybindings
                };
                active_keybindings(source, is_paused, source.len())
            }),
    {
        let source = if binding_modes.len() > 0 {
            &binding_modes[0].keybindings
        } else {
            &self.value.keybindings
        };
        let ghost listed = keybindings_view(source@);
        let mut configs: Vec<KeybindingConfig> = Vec::new();
        let mut i: usize = 0;
        assert(keybindings_view(configs@) =~= Seq::empty());
        while i < source.len()
            invariant
                i <= source@.len(),
                listed == keybindings_view(source@),
                keybindings_view(configs@) == active_keybindings(listed, is_paused, i as nat),
            decreases source@.len() - i,
        {
            let keybinding = &source[i];
            assert(listed[i as int] == keybinding@);
            let ghost before = configs@;
            if !is_paused || has_command(&keybinding.commands, &InvokeCommand::WmTogglePause) {
                configs.push(keybinding.clone());
                assert(keybindings_view(configs@) =~= keybindings_view(before).push(keybinding@));
            }
            i = i + 1;
        }
        configs
    }

    /// Finds problematic workspace configs, which the user is to be warned of.
    pub fn validate_workspace_configs(config_value: &ParsedConfig) -> (warnings: Vec<ConfigWarning>)
        ensures
            warnings_view(warnings@) == config_warnings(
                config_value@.workspaces,
                config_value@.workspaces.len(),
            ),
    {
        let mut warnings: Vec<ConfigWarning> = Vec::new();
        let mut i: usize = 0;
        assert(warnings_view(warnings@) =~= Seq::empty());
        while i < config_value.workspaces.len()
            invariant
                i <= config_value.workspaces@.len(),
                warnings_view(warnings@) == config_warnings(
                    config_value@.workspaces,
                    i as nat,
                ),
            decreases config_value.workspaces@.len() - i,
        {
            let config = &config_value.workspaces[i];
            assert(config_value@.workspaces[i as int] == config@);
            let ghost before = warnings_view(warnings@);
            let ghost expected = warnings_of(config@);
            if config.monitors.is_some() {
                if config.bind_to_monitor.is_some() {
                    warnings.push(ConfigWarning::BindingIgnored(config.name.clone()));
                    assert(warnings_view(warnings@) =~= before.push(
                        ConfigWarningView::BindingIgnored(config@.name),
                    ));
                }
                let ghost between = warnings_view(warnings@);
                proof {
                    crate::text::lemma_last_position_exists(config@.name, '#');
                }
                if find_last(config.name.as_str(), '#').is_some() {
                    warnings.push(ConfigWarning::ReservedName(config.name.clone()));
                    assert(warnings_view(warnings@) =~= between.push(
                        ConfigWarningView::ReservedName(config@.name),
                    ));
                }
            }
            assert(warnings_view(warnings@) =~= before + expected);
            i = i + 1;
        }
        warnings
    }
}

/// Adds a rule to those of each of its events.
fn add_rule_on_events(rules: &mut HashMap<u64, Vec<WindowRuleConfig>>, rule: &WindowRuleConfig)
    ensures
        forall|event: WindowRuleEvent| #[trigger]
            mapped_rules(final(rules)@, event) == mapped_rules(old(rules)@, event) + rule_runs(
                rule@,
                event,
                rule@.on.len(),
            ),
{
    let ghost before = rules@;
    let mut j: usize = 0;
    assert forall|event: WindowRuleEvent| #[trigger] mapped_rules(rules@, event) == mapped_rules(
        before,
        event,
    ) + rule_runs(rule@, event, 0) by {
        assert(mapped_rules(before, event) + rule_runs(rule@, event, 0) =~= mapped_rules(
            before,
            event,
        ));
    }
    while j < rule.on.len()
        invariant
            j <= rule.on@.len(),
            before == old(rules)@,
            forall|event: WindowRuleEvent| #[trigger]
                mapped_rules(rules@, event) == mapped_rules(before, event) + rule_runs(
                    rule@,
                    event,
                    j as nat,
                ),
        decreases rule.on@.len() - j,
    {
        let ghost current = rules@;
        add_rule(rules, &rule.on[j], rule.clone());
        assert forall|event: WindowRuleEvent| #[trigger]
            mapped_rules(rules@, event) == mapped_rules(before, event) + rule_runs(
                rule@,
                event,
                (j + 1) as nat,
            ) by {
            assert(mapped_rules(current, event) == mapped_rules(before, event) + rule_runs(
                rule@,
                event,
                j as nat,
            ));
            assert(mapped_rules(rules@, event) =~= mapped_rules(before, event) + rule_runs(
                rule@,
                event,
                (j + 1) as nat,
            ));
        }
        j = j + 1;
    }
}

/// Whether an optional criterion accepts a text.
pub open spec fn accepts_text(
    criterion: Option<MatchTypeView>,
    text: Seq<char>,
    m: spec_fn(Seq<char>, Seq<char>) -> bool,
) -> bool {
    match criterion {
        Some(criterion) => criterion.accepts(text, m),
        None => true,
    }
}

/// Whether a window meets all criteria of a match config. The process `Zebar` also goes by its
/// lowercase name.
pub open spec fn is_window_match(
    config: WindowMatchConfigView,
    window: WindowView,
    m: spec_fn(Seq<char>, Seq<char>) -> bool,
) -> bool {
    &&& accepts_text(config.window_process, window.process_name, m) || (window.process_name
        == "Zebar"@ && accepts_text(config.window_process, "zebar"@, m))
    &&& accepts_text(config.window_class, window.class_name, m)
    &&& accepts_text(config.window_title, window.title, m)
}

/// Whether a window meets any match config of a rule.
pub open spec fn is_rule_match(
    rule: WindowRuleConfigView,
    window: WindowView,
    m: spec_fn(Seq<char>, Seq<char>) -> bool,
) -> bool {
    exists|i: int|
        0 <= i < rule.match_window.len() && is_window_match(
            #[trigger] rule.match_window[i],
            window,
            m,
        )
}

/// Whether a rule has yet to be run for a window that it matches.
pub open spec fn is_pending_rule(
    rule: WindowRuleConfigView,
    window: WindowView,
    m: spec_fn(Seq<char>, Seq<char>) -> bool,
) -> bool {
    !window.done_window_rules.contains(rule) && is_rule_match(rule, window, m)
}

/// Those of the first `count` rules that have yet to be run for a window.
pub open spec fn pending_rules(
    rules: Seq<WindowRuleConfigView>,
    window: WindowView,
    m: spec_fn(Seq<char>, Seq<char>) -> bool,
    count: nat,
) -> Seq<WindowRuleConfigView>
    decreases count,
{
    if count == 0 {
        Seq::empty()
    } else {
        let rest = pending_rules(rules, window, m, (count - 1) as nat);
        if is_pending_rule(rules[count - 1], window, m) {
            rest.push(rules[count - 1])
        } else {
            rest
        }
    }
}

fn criterion_accepts<F: Fn(&str, &str) -> bool>(
    criterion: &Option<MatchType>,
    text: &str,
    matcher: &F,
) -> (accepts: bool)
    requires
        forall|pattern: &str, text: &str| call_requires(*matcher, (pattern, text)),
    ensures
        forall|m: spec_fn(Seq<char>, Seq<char>) -> bool|
            matcher_decided_by(*matcher, m) ==> accepts == #[trigger] accepts_text(
                crate::window_rules::match_view(*criterion),
                text@,
                m,
            ),
{
    match criterion {
        Some(criterion) => criterion.is_match(text, matcher),
        None => true,
    }
}

fn window_matches<F: Fn(&str, &str) -> bool>(
    config: &WindowMatchConfig,
    window: &Window,
    matcher: &F,
) -> (matches: bool)
    requires
        forall|pattern: &str, text: &str| call_requires(*matcher, (pattern, text)),
    ensures
        forall|m: spec_fn(Seq<char>, Seq<char>) -> bool|
            matcher_decided_by(*matcher, m) ==> matches == #[trigger] is_window_match(
                config@,
                window@,
                m,
            ),
{
    let process = window.process_name.as_str();
    let is_process_match = criterion_accepts(&config.window_process, process, matcher) || (
    same_text(process, "Zebar") && criterion_accepts(&config.window_process, "zebar", matcher));
    let is_class_match = criterion_accepts(
        &config.window_class,
        window.class_name.as_str(),
        matcher,
    );
    let is_title_match = criterion_accepts(&config.window_title, window.title.as_str(), matcher);
    is_process_match && is_class_match && is_title_match
}

fn rule_matches<F: Fn(&str, &str) -> bool>(
    rule: &WindowRuleConfig,
    window: &Window,
    matcher: &F,
) -> (matches: bool)
    requires
        forall|pattern: &str, text: &str| call_requires(*matcher, (pattern, text)),
    ensures
        forall|m: spec_fn(Seq<char>, Seq<char>) -> bool|
            matcher_decided_by(*matcher, m) ==> matches == #[trigger] is_rule_match(
                rule@,
                window@,
                m,
            ),
{
    let mut i: usize = 0;
    while i < rule.match_window.len()
        invariant
            i <= rule.match_window@.len(),
            forall|pattern: &str, text: &str| call_requires(*matcher, (pattern, text)),
            forall|m: spec_fn(Seq<char>, Seq<char>) -> bool, j: int|
                0 <= j < i && matcher_decided_by(*matcher, m) ==> !(#[trigger] is_window_match(
                    rule@.match_window[j],
                    window@,
                    m,
                )),
        decreases rule.match_window@.len() - i,
    {
        let config = &rule.match_window[i];
        assert(rule@.match_window[i as int] == config@);
        if window_matches(config, window, matcher) {
            assert forall|m: spec_fn(Seq<char>, Seq<char>) -> bool|
                matcher_decided_by(*matcher, m) implies #[trigger] is_rule_match(
                rule@,
                window@,
                m,
            ) by {
                assert(is_window_match(config@, window@, m));
                assert(is_window_match(rule@.match_window[i as int], window@, m));
            }
            return true;
        }
        assert forall|m: spec_fn(Seq<char>, Seq<char>) -> bool, j: int|
            0 <= j < i + 1 && matcher_decided_by(*matcher, m) implies !(
        #[trigger] is_window_match(rule@.match_window[j], window@, m)) by {
            if j == i {
                assert(!is_window_match(config@, window@, m));
            }
        }
        i = i + 1;
    }
    false
}

/// Those of the first `count` keybindings that are active.
pub open spec fn active_keybindings(
    keybindings: Seq<KeybindingConfigView>,
    is_paused: bool,
    count: nat,
) -> Seq<KeybindingConfigView>
    decreases count,
{
    if count == 0 {
        Seq::empty()
    } else {
        let rest = active_keybindings(keybindings, is_paused, (count - 1) as nat);
        if !is_paused || keybindings[count - 1].commands.contains(
            InvokeCommandView::WmTogglePause,
        ) {
            rest.push(keybindings[count - 1])
        } else {
            rest
        }
    }
}

/// Problem with a workspace config that isn't fatal.
#[derive(Debug, PartialEq, Eq)]
pub enum ConfigWarning {
    /// The workspace with the name sets both `monitors` and `bind_to_monitor`; `monitors` takes
    /// precedence.
    BindingIgnored(String),
    /// The name contains '#', which is reserved for synthesized instances of spanning
    /// workspaces.
    ReservedName(String),
}

pub enum ConfigWarningView {
    BindingIgnored(Seq<char>),
    ReservedName(Seq<char>),
}

impl View for ConfigWarning {
    type V = ConfigWarningView;

    open spec fn view(&self) -> ConfigWarningView {
        match self {
            ConfigWarning::BindingIgnored(name) => ConfigWarningView::BindingIgnored(name@),
            ConfigWarning::ReservedName(name) => ConfigWarningView::ReservedName(name@),
        }
    }
}

pub open spec fn warnings_view(warnings: Seq<ConfigWarning>) -> Seq<ConfigWarningView> {
    warnings.map_values(|warning: ConfigWarning| warning@)
}

/// Problems with the config of a workspace. Only spanning workspaces have any.
pub open spec fn warnings_of(config: WorkspaceConfigView) -> Seq<ConfigWarningView> {
    let binding = if config.monitors is Some && config.bind_to_monitor is Some {
        seq![ConfigWarningView::BindingIgnored(config.name)]
    } else {
        Seq::empty()
    };
    let name = if config.monitors is Some && config.name.contains('#') {
        seq![ConfigWarningView::ReservedName(config.name)]
    } else {
        Seq::empty()
    };
    binding + name
}

/// Problems with the first `count` workspace configs.
pub open spec fn config_warnings(configs: Seq<WorkspaceConfigView>, count: nat) -> Seq<
    ConfigWarningView,
>
    decreases count,
{
    if count == 0 {
        Seq::empty()
    } else {
        config_warnings(configs, (count - 1) as nat) + warnings_of(configs[count - 1])
    }
}

} // verus!
