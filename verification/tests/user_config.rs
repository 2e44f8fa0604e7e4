use glazewm::config::{
    BindingModeConfig, FloatingStateConfig, FullscreenStateConfig, GeneralConfig, HideMethod,
    InitialWindowState, KeybindingConfig, ParsedConfig, WindowBehaviorConfig, WindowState,
    WindowStateDefaultsConfig,
};
use glazewm::container::{DisplayState, Node, NodeContent, Window};
use glazewm::geometry::{Rect, TilingDirection};
use glazewm::user_config::{ConfigWarning, UserConfig};
use glazewm::window_rules::{
    InvokeCommand, MatchType, WindowMatchConfig, WindowRuleConfig, WindowRuleEvent,
};
use glazewm::workspace::Workspace;
use glazewm::workspace_config::{MonitorSelector, WorkspaceConfig};

fn workspace_config(name: &str, monitors: Option<MonitorSelector>) -> WorkspaceConfig {
    WorkspaceConfig {
        name: name.to_string(),
        display_name: None,
        bind_to_monitor: None,
        keep_alive: false,
        monitors,
        spanning_group: None,
        spanning_page: 0,
    }
}

fn user_config(workspaces: Vec<WorkspaceConfig>) -> UserConfig {
    UserConfig::new(
        String::new(),
        ParsedConfig {
            general: GeneralConfig {
                toggle_workspace_on_refocus: false,
                focus_follows_cursor: true,
                hide_method: HideMethod::Cloak,
            },
            window_behavior: WindowBehaviorConfig {
                initial_state: InitialWindowState::Tiling,
                state_defaults: WindowStateDefaultsConfig {
                    floating: FloatingStateConfig { centered: true, shown_on_top: false },
                    fullscreen: FullscreenStateConfig { maximized: false, shown_on_top: true },
                },
            },
            window_rules: Vec::new(),
            workspaces,
            keybindings: Vec::new(),
        },
        String::new(),
    )
}

/// A regular workspace.
fn regular(id: u128, name: &str) -> Workspace {
    Workspace::new(id, workspace_config(name, None), TilingDirection::Horizontal)
}

fn window_node(id: u128, workspace: u128, state: WindowState) -> Node {
    Node {
        id,
        workspace,
        parent: None,
        area: Rect::from_xy(0, 0, 500, 800),
        content: NodeContent::Window(Window {
            native: id as isize,
            title: "title".to_string(),
            class_name: "class".to_string(),
            process_name: "process".to_string(),
            frame: Rect::from_xy(0, 0, 500, 800),
            is_minimized: false,
            is_maximized: false,
            state,
            prev_state: None,
            display_state: DisplayState::Shown,
            active_drag: None,
            floating_placement: Rect::from_xy(10, 10, 200, 100),
            insertion_target: None,
            has_pending_dpi_adjustment: false,
            done_window_rules: Vec::new(),
        }),
    }
}

fn mock_user_config(workspace_configs: Vec<WorkspaceConfig>) -> UserConfig {
    user_config(workspace_configs)
}

fn mock_workspace_config(name: &str, monitors: Option<MonitorSelector>) -> WorkspaceConfig {
    workspace_config(name, monitors)
}

#[test]
fn finds_spanning_workspace_config() {
    let config = mock_user_config(vec![
        mock_workspace_config("1", None),
        mock_workspace_config("2", Some(MonitorSelector::All)),
    ]);

    assert!(config.spanning_workspace_config("2").is_some());
    assert!(config.spanning_workspace_config("1").is_none());
    assert!(config.spanning_workspace_config("9").is_none());
}

#[test]
fn sorts_synthesized_instances_by_group_position() {
    let config = mock_user_config(vec![
        mock_workspace_config("1", None),
        mock_workspace_config("2", Some(MonitorSelector::All)),
        mock_workspace_config("3", None),
    ]);

    let mut instance = regular(11, "2#abc123");
    instance.config.spanning_group = Some("2".to_string());

    let mut workspaces = vec![regular(10, "3"), instance, regular(12, "1")];

    config.sort_workspaces(&mut workspaces);

    let names = workspaces
        .iter()
        .map(|workspace| workspace.config.name.clone())
        .collect::<Vec<_>>();

    assert_eq!(names, vec!["1", "2#abc123", "3"]);
}

#[test]
fn unlisted_workspaces_come_first_and_ties_keep_their_order() {
    let config = mock_user_config(vec![mock_workspace_config("1", None)]);
    let mut workspaces = vec![regular(1, "1"), regular(2, "y"), regular(3, "1"), regular(4, "x")];

    config.sort_workspaces(&mut workspaces);

    let ids = workspaces.iter().map(|workspace| workspace.id).collect::<Vec<_>>();
    assert_eq!(ids, vec![2, 4, 1, 3]);
}

#[test]
fn looks_up_workspace_configs() {
    let mut bound = mock_workspace_config("2", None);
    bound.bind_to_monitor = Some(1);
    let config = mock_user_config(vec![
        bound,
        mock_workspace_config("1", None),
        mock_workspace_config("3", Some(MonitorSelector::All)),
    ]);
    let active = regular(10, "1");

    assert_eq!(config.workspace_config_index("3"), Some(2));
    assert_eq!(config.workspace_config_index("4"), None);
    assert_eq!(config.spanning_workspace_configs().len(), 1);

    let inactive = config
        .inactive_workspace_configs(&vec![&active])
        .iter()
        .map(|config| config.name.clone())
        .collect::<Vec<_>>();
    assert_eq!(inactive, vec!["2", "3"]);

    let for_monitor = config.workspace_config_for_monitor(1, &vec![&active]);
    assert_eq!(for_monitor.map(|config| config.name.as_str()), Some("2"));
    assert!(config.workspace_config_for_monitor(0, &vec![&active]).is_none());

    let next = config.next_inactive_workspace_config(&vec![&active]);
    assert_eq!(next.map(|config| config.name.as_str()), Some("3"));

    let third = regular(11, "3");
    let next = config.next_inactive_workspace_config(&vec![&active, &third]);
    assert_eq!(next.map(|config| config.name.as_str()), Some("2"));
}

fn matcher(pattern: &str, text: &str) -> bool {
    text.starts_with(pattern)
}

fn window(process_name: &str, class_name: &str) -> Window {
    match window_node(1, 1, WindowState::Tiling).content {
        NodeContent::Window(mut window) => {
            window.process_name = process_name.to_string();
            window.class_name = class_name.to_string();
            window
        }
        NodeContent::Split { .. } => panic!("Node should be a window."),
    }
}

fn rule(match_window: Vec<WindowMatchConfig>, on: Vec<WindowRuleEvent>) -> WindowRuleConfig {
    WindowRuleConfig {
        commands: vec![InvokeCommand::Other("close".to_string())],
        match_window,
        on,
        run_once: true,
    }
}

fn process(match_type: MatchType) -> WindowMatchConfig {
    WindowMatchConfig {
        window_process: Some(match_type),
        window_class: None,
        window_title: None,
    }
}

fn equals(text: &str) -> MatchType {
    MatchType::Equals { equals: text.to_string() }
}

#[test]
fn default_rules_float_dialogs_and_ignore_the_shell() {
    let config = mock_user_config(Vec::new());

    let dialog =
        config.pending_window_rules(&window("x", "#32770"), &WindowRuleEvent::Manage, &matcher);
    assert_eq!(dialog.len(), 1);
    assert_eq!(
        dialog[0].commands,
        vec![InvokeCommand::SetFloating {
            centered: Some(true),
            shown_on_top: Some(false),
            x_pos: None,
            y_pos: None,
            width: None,
            height: None,
        }]
    );
    assert!(dialog[0].run_once);

    for name in [
        "SearchApp",
        "SearchHost",
        "ShellExperienceHost",
        "StartMenuExperienceHost",
        "ScreenClippingHost",
        "LockApp",
    ] {
        let shell =
            config.pending_window_rules(&window(name, "x"), &WindowRuleEvent::Manage, &matcher);
        assert_eq!(shell.len(), 1, "{name}");
        assert_eq!(shell[0].commands, vec![InvokeCommand::Ignore]);
    }

    let copying = window("x", "OperationStatusWindow");
    assert_eq!(
        config.pending_window_rules(&copying, &WindowRuleEvent::Manage, &matcher).len(),
        1
    );
    assert!(config
        .pending_window_rules(&copying, &WindowRuleEvent::Focus, &matcher)
        .is_empty());
    assert!(config
        .pending_window_rules(&window("x", "y"), &WindowRuleEvent::Manage, &matcher)
        .is_empty());
}

#[test]
fn user_rules_come_before_default_ones_and_only_once() {
    let mut config = mock_user_config(Vec::new());
    let mut value = mock_user_config(Vec::new()).value;
    value.window_rules = vec![
        rule(vec![process(equals("y"))], vec![WindowRuleEvent::Manage]),
        rule(
            vec![process(equals("y")), process(MatchType::Pattern { pattern: "Search".to_string() })],
            vec![WindowRuleEvent::Focus, WindowRuleEvent::Manage],
        ),
    ];
    config.reload(value, "text".to_string());
    assert_eq!(config.value_str, "text");

    let mut search = window("SearchApp", "x");
    let pending = config.pending_window_rules(&search, &WindowRuleEvent::Manage, &matcher);
    assert_eq!(pending.len(), 2);
    assert_eq!(pending[0].commands, vec![InvokeCommand::Other("close".to_string())]);
    assert_eq!(pending[1].commands, vec![InvokeCommand::Ignore]);

    assert_eq!(
        config.pending_window_rules(&search, &WindowRuleEvent::Focus, &matcher).len(),
        1
    );

    search.done_window_rules = pending;
    assert!(config
        .pending_window_rules(&search, &WindowRuleEvent::Manage, &matcher)
        .is_empty());
}

#[test]
fn zebar_goes_by_its_lowercase_name_too() {
    let mut value = mock_user_config(Vec::new()).value;
    value.window_rules =
        vec![rule(vec![process(equals("zebar"))], vec![WindowRuleEvent::Manage])];
    let config = UserConfig::new(String::new(), value, String::new());

    for (name, count) in [("Zebar", 1), ("zebar", 1), ("ZEBAR", 0)] {
        let pending =
            config.pending_window_rules(&window(name, "x"), &WindowRuleEvent::Manage, &matcher);
        assert_eq!(pending.len(), count, "{name}");
    }
}

#[test]
fn all_criteria_of_a_match_have_to_be_met() {
    let mut value = mock_user_config(Vec::new()).value;
    let both = WindowMatchConfig {
        window_process: Some(equals("process")),
        window_class: Some(equals("class")),
        window_title: Some(equals("title")),
    };
    value.window_rules = vec![rule(vec![both], vec![WindowRuleEvent::TitleChange])];
    let config = UserConfig::new(String::new(), value, String::new());
    let event = WindowRuleEvent::TitleChange;

    assert_eq!(
        config.pending_window_rules(&window("process", "class"), &event, &matcher).len(),
        1
    );
    assert!(config
        .pending_window_rules(&window("process", "other"), &event, &matcher)
        .is_empty());
    assert!(config
        .pending_window_rules(&window("other", "class"), &event, &matcher)
        .is_empty());
}

fn keybinding(key: &str, command: InvokeCommand) -> KeybindingConfig {
    KeybindingConfig { bindings: vec![key.to_string()], commands: vec![command] }
}

#[test]
fn only_unpausing_is_bound_while_paused() {
    let mut value = mock_user_config(Vec::new()).value;
    value.keybindings = vec![
        keybinding("a", InvokeCommand::Other("close".to_string())),
        keybinding("p", InvokeCommand::WmTogglePause),
    ];
    let config = UserConfig::new(String::new(), value, String::new());
    let modes = vec![BindingModeConfig {
        name: "resize".to_string(),
        keybindings: vec![keybinding("r", InvokeCommand::Other("resize".to_string()))],
    }];

    assert_eq!(config.active_keybinding_configs(&Vec::new(), false).len(), 2);
    assert_eq!(
        config.active_keybinding_configs(&Vec::new(), true),
        vec![keybinding("p", InvokeCommand::WmTogglePause)]
    );
    assert_eq!(
        config.active_keybinding_configs(&modes, false),
        vec![keybinding("r", InvokeCommand::Other("resize".to_string()))]
    );
    assert!(config.active_keybinding_configs(&modes, true).is_empty());
}

#[test]
fn problematic_workspace_configs_are_warned_of() {
    let mut both = mock_workspace_config("1#x", Some(MonitorSelector::All));
    both.bind_to_monitor = Some(0);
    let mut regular_bound = mock_workspace_config("2#y", None);
    regular_bound.bind_to_monitor = Some(0);
    let config = mock_user_config(vec![
        both,
        regular_bound,
        mock_workspace_config("3", Some(MonitorSelector::All)),
    ]);

    assert_eq!(
        UserConfig::validate_workspace_configs(&config.value),
        vec![
            ConfigWarning::BindingIgnored("1#x".to_string()),
            ConfigWarning::ReservedName("1#x".to_string()),
        ]
    );
}

#[test]
fn config_path_is_asked_for_or_given_by_the_environment() {
    let path = |text: &str| Some(text.to_string());
    let default_path = || "default".to_string();

    assert_eq!(UserConfig::config_path(path("a"), path("b"), default_path()), "a");
    assert_eq!(UserConfig::config_path(None, path("b"), default_path()), "b");
    assert_eq!(UserConfig::config_path(None, None, default_path()), "default");
}
