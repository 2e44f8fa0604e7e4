//! The parsed user config.
use vstd::prelude::*;

use crate::window_rules::{
    clone_commands, commands_view, rules_view, InvokeCommand, InvokeCommandView, WindowRuleConfig,
    WindowRuleConfigView,
};
use crate::workspace_config::{configs_view, WorkspaceConfig, WorkspaceConfigView};

verus! {

/// How windows of workspaces that aren't displayed are hidden.
#[derive(Clone, Copy, Debug, PartialEq, Eq, Structural)]
pub enum HideMethod {
    Hide,
    Cloak,
    PlaceInCorner,
}

#[derive(Clone, Copy, Debug, PartialEq, Eq, Structural)]
pub struct GeneralConfig {
    /// Whether focusing the focused workspace goes back to the previous one.
    pub toggle_workspace_on_refocus: bool,
    pub focus_follows_cursor: bool,
    pub hide_method: HideMethod,
}

#[derive(Clone, Copy, Debug, PartialEq, Eq, Structural)]
pub struct FloatingStateConfig {
    pub centered: bool,
    pub shown_on_top: bool,
}

#[derive(Clone, Copy, Debug, PartialEq, Eq, Structural)]
pub struct FullscreenStateConfig {
    pub maximized: bool,
    pub shown_on_top: bool,
}

#[derive(Clone, Copy, Debug, PartialEq, Eq, Structural)]
pub struct WindowStateDefaultsConfig {
    pub floating: FloatingStateConfig,
    pub fullscreen: FullscreenStateConfig,
}

/// State in which windows are managed unless a rule says otherwise.
#[derive(Clone, Copy, Debug, PartialEq, Eq, Structural)]
pub enum InitialWindowState {
    Tiling,
    Floating,
}

#[derive(Clone, Copy, Debug, PartialEq, Eq, Structural)]
pub struct WindowBehaviorConfig {
    pub initial_state: InitialWindowState,
    pub state_defaults: WindowStateDefaultsConfig,
}

#[derive(Clone, Copy, Debug, PartialEq, Eq, Structural)]
pub enum WindowState {
    Tiling,
    Floating(FloatingStateConfig),
    Fullscreen(FullscreenStateConfig),
    Minimized,
}

impl WindowState {
    pub open spec fn spec_default(behavior: WindowBehaviorConfig) -> WindowState {
        match behavior.initial_state {
            InitialWindowState::Tiling => WindowState::Tiling,
            InitialWindowState::Floating => WindowState::Floating(behavior.state_defaults.floating),
        }
    }

    /// State in which windows are managed by default.
    pub fn default_from_config(behavior: &WindowBehaviorConfig) -> (state: WindowState)
        ensures
            state == WindowState::spec_default(*behavior),
    {
        match behavior.initial_state {
            InitialWindowState::Tiling => WindowState::Tiling,
            InitialWindowState::Floating => WindowState::Floating(behavior.state_defaults.floating),
        }
    }
}

/// Commands that are invoked by key combinations.
#[derive(Debug, PartialEq, Eq)]
pub struct KeybindingConfig {
    pub bindings: Vec<String>,
    pub commands: Vec<InvokeCommand>,
}

pub struct KeybindingConfigView {
    pub bindings: Seq<Seq<char>>,
    pub commands: Seq<InvokeCommandView>,
}

impl View for KeybindingConfig {
    type V = KeybindingConfigView;

    open spec fn view(&self) -> KeybindingConfigView {
        KeybindingConfigView {
            bindings: self.bindings@.map_values(|binding: String| binding@),
            commands: commands_view(self.commands@),
        }
    }
}

impl Clone for KeybindingConfig {
    fn clone(&self) -> (copy: Self)
        ensures
            copy@ == self@,
    {
        let mut bindings: Vec<String> = Vec::new();
        let mut i: usize = 0;
        while i < self.bindings.len()
            invariant
                i <= self.bindings@.len(),
                bindings@.len() == i,
                forall|j: int| 0 <= j < i ==> (#[trigger] bindings@[j])@ == self.bindings@[j]@,
            decreases self.bindings@.len() - i,
        {
            bindings.push(self.bindings[i].clone());
            i = i + 1;
        }
        let copy = KeybindingConfig { bindings, commands: clone_commands(&self.commands) };
        assert(copy@.bindings =~= self@.bindings);
        copy
    }
}

pub open spec fn keybindings_view(keybindings: Seq<KeybindingConfig>) -> Seq<KeybindingConfigView> {
    keybindings.map_values(|keybinding: KeybindingConfig| keybinding@)
}

/// Keybindings that are active while a binding mode is enabled.
#[derive(Debug, PartialEq, Eq)]
pub struct BindingModeConfig {
    pub name: String,
    pub keybindings: Vec<KeybindingConfig>,
}

#[derive(Debug, PartialEq, Eq)]
pub struct ParsedConfig {
    pub general: GeneralConfig,
    pub window_behavior: WindowBehaviorConfig,
    pub window_rules: Vec<WindowRuleConfig>,
    pub workspaces: Vec<WorkspaceConfig>,
    pub keybindings: Vec<KeybindingConfig>,
}

pub struct ParsedConfigView {
    pub general: GeneralConfig,
    pub window_behavior: WindowBehaviorConfig,
    pub window_rules: Seq<WindowRuleConfigView>,
    pub workspaces: Seq<WorkspaceConfigView>,
    pub keybindings: Seq<KeybindingConfigView>,
}

impl View for ParsedConfig {
    type V = ParsedConfigView;

    open spec fn view(&self) -> ParsedConfigView {
        ParsedConfigView {
            general: self.general,
            window_behavior: self.window_behavior,
            window_rules: rules_view(self.window_rules@),
            workspaces: configs_view(self.workspaces@),
            keybindings: keybindings_view(self.keybindings@),
        }
    }
}

/// A window is tiled by default if windows are to be, and floats by the user's defaults otherwise.
pub proof fn law_default_state_is_as_configured(behavior: WindowBehaviorConfig)
    ensures
        behavior.initial_state == InitialWindowState::Tiling <==> WindowState::spec_default(
            behavior,
        ) == WindowState::Tiling,
        behavior.initial_state == InitialWindowState::Floating ==> WindowState::spec_default(
            behavior,
        ) == WindowState::Floating(behavior.state_defaults.floating),
{
}

} // verus!
