use glazewm::activate_workspace::{
    activate_default_workspace, activate_spanning_instance, activate_workspace,
    spanning_instance_config,
};
use glazewm::config::{
    FloatingStateConfig, FullscreenStateConfig, GeneralConfig, HideMethod, InitialWindowState,
    ParsedConfig, WindowBehaviorConfig, WindowStateDefaultsConfig,
};
use glazewm::geometry::{Rect, TilingDirection};
use glazewm::monitor::Monitor;
use glazewm::monitor_identity::MonitorIdentity;
use glazewm::orientation::Orientation;
use glazewm::page_key::PageKey;
use glazewm::pending_sync::PendingSync;
use glazewm::user_config::UserConfig;
use glazewm::wm_error::WmError;
use glazewm::wm_event::WmEvent;
use glazewm::wm_state::WmState;
use glazewm::workspace::Workspace;
use glazewm::workspace_config::{MonitorSelector, WorkspaceConfig};

fn workspace_config(name: &str, monitors: Option<MonitorSelector>) -> WorkspaceConfig {
    WorkspaceConfig {
        name: name.to_string(),
        display_name: None,
        bind_to_monitor: None,
        keep_alive: false,
        monitors,
        spanning_group: None,
        spanning_page: 0,
    }
}

fn user_config(workspaces: Vec<WorkspaceConfig>) -> UserConfig {
    UserConfig::new(
        String::new(),
        ParsedConfig {
            general: GeneralConfig {
                toggle_workspace_on_refocus: false,
                focus_follows_cursor: true,
                hide_method: HideMethod::Cloak,
            },
            window_behavior: WindowBehaviorConfig {
                initial_state: InitialWindowState::Tiling,
                state_defaults: WindowStateDefaultsConfig {
                    floating: FloatingStateConfig { centered: true, shown_on_top: false },
                    fullscreen: FullscreenStateConfig { maximized: false, shown_on_top: true },
                },
            },
            window_rules: Vec::new(),
            workspaces,
            keybindings: Vec::new(),
        },
        String::new(),
    )
}

/// A 1000x800 monitor at the given index, without workspaces.
fn monitor(id: u128, index: i32) -> Monitor {
    Monitor {
        id,
        device_name: format!("DISPLAY{id}"),
        device_path: None,
        bounds: Rect::from_xy(1000 * index, 0, 1000, 800),
        workspace_area: Rect::from_xy(1000 * index, 0, 1000, 800),
        workspaces: Vec::new(),
        focus_order: Vec::new(),
    }
}

/// A state with the given monitors, the first of them focused.
fn wm_state(monitors: Vec<Monitor>) -> WmState {
    WmState {
        focus_order: monitors.iter().map(|monitor| monitor.id).collect(),
        monitors,
        nodes: Vec::new(),
        window_focus_order: Vec::new(),
        recent_workspace_name: None,
        is_focus_synced: true,
        is_paused: false,
        ignored_windows: Vec::new(),
        pending_sync: PendingSync::new(),
        events: Vec::new(),
        next_id: 1000,
    }
}

/// A regular workspace.
fn regular(id: u128, name: &str) -> Workspace {
    Workspace::new(id, workspace_config(name, None), TilingDirection::Horizontal)
}

/// An instance of a page of a spanning workspace.
fn instance(id: u128, name: &str, group: &str, page: usize) -> Workspace {
    let mut config = workspace_config(name, Some(MonitorSelector::All));
    config.spanning_group = Some(group.to_string());
    config.spanning_page = page;
    Workspace::new(id, config, TilingDirection::Horizontal)
}

/// Names of the workspaces of a monitor, in order.
fn names(monitor: &Monitor) -> Vec<&str> {
    monitor.workspaces.iter().map(|workspace| workspace.config.name.as_str()).collect()
}

/// Name of the workspace that a monitor displays.
fn displayed(monitor: &Monitor) -> Option<&str> {
    monitor.displayed_workspace().map(|at| monitor.workspaces[at].config.name.as_str())
}

fn mock_group_config() -> WorkspaceConfig {
    WorkspaceConfig {
        name: "2".to_string(),
        display_name: None,
        bind_to_monitor: Some(1),
        keep_alive: true,
        monitors: Some(MonitorSelector::All),
        spanning_group: None,
        spanning_page: 0,
    }
}

#[test]
fn derives_instance_config_from_group() {
    let config = spanning_instance_config(
        &mock_group_config(),
        &PageKey::first("2"),
        "2#abc123".to_string(),
    );

    assert_eq!(config.name, "2#abc123");
    assert_eq!(config.display_name, Some("2".to_string()));
    assert_eq!(config.bind_to_monitor, None);
    assert!(config.keep_alive);
    assert_eq!(config.monitors, Some(MonitorSelector::All));
    assert_eq!(config.spanning_group, Some("2".to_string()));
    assert_eq!(config.spanning_page, 1);
    assert_eq!(config.page_key(), Some(PageKey::first("2")));
}

#[test]
fn instance_inherits_group_display_name() {
    let mut group_config = mock_group_config();
    group_config.display_name = Some("Work".to_string());

    let config = spanning_instance_config(
        &group_config,
        &PageKey::first("2"),
        "2#abc123".to_string(),
    );

    assert_eq!(config.display_name, Some("Work".to_string()));
}

#[test]
fn further_pages_get_page_suffix_and_no_keep_alive() {
    let page_key = PageKey { group: "2".to_string(), page: 3 };

    let config =
        spanning_instance_config(&mock_group_config(), &page_key, "2/3".to_string());

    assert_eq!(config.display_name, Some("2/3".to_string()));
    assert!(!config.keep_alive);
    assert_eq!(config.spanning_page, 3);
    assert_eq!(config.page_key(), Some(page_key));
}

#[test]
fn instances_of_a_page_share_their_display_name() {
    let page_key = PageKey { group: "2".to_string(), page: 12 };
    let mut group_config = mock_group_config();
    group_config.display_name = Some("Work".to_string());

    let a = spanning_instance_config(&group_config, &page_key, "2/12".to_string());
    let b = spanning_instance_config(&group_config, &page_key, "2/12#00000001".to_string());

    assert_eq!(a.display_name, Some("Work/12".to_string()));
    assert_eq!(b.display_name, a.display_name);
}

#[test]
fn activates_the_named_workspace_on_the_focused_monitor() {
    let config = user_config(vec![workspace_config("1", None), workspace_config("2", None)]);
    let mut state = wm_state(vec![monitor(1, 0), monitor(2, 1)]);

    assert_eq!(activate_workspace(Some("2"), None, &mut state, &config), Ok(()));

    assert_eq!(names(&state.monitors[0]), ["2"]);
    assert_eq!(displayed(&state.monitors[0]), Some("2"));
    assert_eq!(state.monitors[0].workspaces[0].home, None);
    assert_eq!(state.monitors[0].workspaces[0].monitor, Some(1));
    assert_eq!(state.events, vec![WmEvent::WorkspaceActivated { activated_workspace: 1000 }]);
    assert_eq!(state.next_id, 1001);
}

#[test]
fn activates_on_the_bound_monitor() {
    let mut bound = workspace_config("2", None);
    bound.bind_to_monitor = Some(1);
    let mut unreachable_binding = workspace_config("3", None);
    unreachable_binding.bind_to_monitor = Some(7);
    let config = user_config(vec![workspace_config("1", None), bound, unreachable_binding]);
    let mut state = wm_state(vec![monitor(1, 0), monitor(2, 1)]);

    assert_eq!(activate_workspace(Some("2"), None, &mut state, &config), Ok(()));
    assert_eq!(activate_workspace(Some("3"), None, &mut state, &config), Ok(()));

    assert_eq!(names(&state.monitors[1]), ["2"]);
    assert_eq!(names(&state.monitors[0]), ["3"]);
}

#[test]
fn first_suitable_config_is_activated_without_a_name() {
    let mut bound = workspace_config("1", None);
    bound.bind_to_monitor = Some(1);
    let config = user_config(vec![bound, workspace_config("2", None)]);
    let mut state = wm_state(vec![monitor(1, 0), monitor(2, 1)]);

    // Unbound configs are preferred, unless the monitor has a config bound to it.
    assert_eq!(activate_workspace(None, Some(0), &mut state, &config), Ok(()));
    assert_eq!(activate_workspace(None, Some(1), &mut state, &config), Ok(()));

    assert_eq!(names(&state.monitors[0]), ["2"]);
    assert_eq!(names(&state.monitors[1]), ["1"]);
    assert_eq!(
        activate_workspace(None, Some(0), &mut state, &config),
        Err(WmError::NoWorkspaceConfig)
    );
}

#[test]
fn active_and_unknown_workspaces_cannot_be_activated() {
    let config = user_config(vec![workspace_config("1", None)]);
    let mut state = wm_state(vec![monitor(1, 0)]);
    assert_eq!(activate_workspace(Some("1"), None, &mut state, &config), Ok(()));

    for name in ["1", "9"] {
        assert_eq!(
            activate_workspace(Some(name), None, &mut state, &config),
            Err(WmError::WorkspaceUnavailable(name.to_string()))
        );
    }
    assert_eq!(names(&state.monitors[0]), ["1"]);
}

#[test]
fn nothing_is_activated_without_a_monitor() {
    let config = user_config(vec![workspace_config("1", None)]);
    let mut state = wm_state(Vec::new());

    assert_eq!(
        activate_workspace(Some("1"), None, &mut state, &config),
        Err(WmError::NoTargetMonitor)
    );
}

#[test]
fn spanning_workspace_is_activated_as_first_page_with_a_home() {
    let mut group = workspace_config("2", Some(MonitorSelector::All));
    group.bind_to_monitor = Some(1);
    let config = user_config(vec![group]);
    let mut state = wm_state(vec![monitor(1, 0), monitor(2, 1)]);

    assert_eq!(activate_workspace(Some("2"), None, &mut state, &config), Ok(()));

    let workspace = &state.monitors[0].workspaces[0];
    assert_eq!(workspace.config.page_key(), Some(PageKey::first("2")));
    assert_eq!(workspace.config.bind_to_monitor, None);
    assert_eq!(workspace.home, Some(MonitorIdentity::of(&state.monitors, 0)));
}

#[test]
fn portrait_monitors_are_tiled_vertically() {
    let config = user_config(vec![workspace_config("1", None)]);
    let mut portrait = monitor(1, 0);
    portrait.bounds = Rect::from_xy(0, 0, 800, 1000);
    let mut state = wm_state(vec![portrait]);

    assert_eq!(activate_workspace(None, Some(0), &mut state, &config), Ok(()));

    let workspace = &state.monitors[0].workspaces[0];
    assert_eq!(workspace.tiling_direction, TilingDirection::Vertical);
    assert_eq!(workspace.layout_orientation, Orientation::Portrait);
    assert!(!workspace.is_transposed);
}

#[test]
fn instance_names_are_made_unique() {
    let id: u128 = 0x0123456789abcdef0123456789abcdef;
    let config = user_config(vec![workspace_config("1", Some(MonitorSelector::All))]);
    let mut state = wm_state(vec![monitor(id, 0)]);
    let page = PageKey::first("1");

    for _ in 0..4 {
        assert!(activate_spanning_instance(&page, 0, &mut state, &config).is_ok());
    }

    assert_eq!(
        names(&state.monitors[0]),
        ["1", "1#01234567", "1#01234567-2", "1#01234567-3"]
    );
    // Only the first one is displayed; the others land at the back of the focus order.
    assert_eq!(displayed(&state.monitors[0]), Some("1"));
    assert_eq!(state.monitors[0].focus_order, vec![1000, 1001, 1002, 1003]);
}

#[test]
fn names_of_other_configs_are_not_taken() {
    let config = user_config(vec![
        workspace_config("1", Some(MonitorSelector::All)),
        workspace_config("1/2", None),
    ]);
    let mut state = wm_state(vec![monitor(0xabcd << 96, 0)]);
    let page = PageKey { group: "1".to_string(), page: 2 };

    assert_eq!(activate_spanning_instance(&page, 0, &mut state, &config), Ok(1000));

    assert_eq!(names(&state.monitors[0]), ["1/2#0000abcd"]);
}

#[test]
fn instances_need_a_spanning_config() {
    let config = user_config(vec![workspace_config("1", None)]);
    let mut state = wm_state(vec![monitor(1, 0)]);

    assert_eq!(
        activate_spanning_instance(&PageKey::first("1"), 0, &mut state, &config),
        Err(WmError::NoSpanningConfig("1".to_string()))
    );
    assert!(state.monitors[0].workspaces.is_empty());
}

#[test]
fn default_workspace_joins_the_focused_page() {
    let config = user_config(vec![
        workspace_config("1", Some(MonitorSelector::All)),
        workspace_config("2", None),
    ]);
    let mut state = wm_state(vec![monitor(1, 0), monitor(2, 1)]);
    state.attach_workspace(0, instance(10, "1", "1", 1));

    assert_eq!(activate_default_workspace(1, &mut state, &config), Ok(()));

    assert_eq!(names(&state.monitors[1]), ["1#00000000"]);
    assert_eq!(
        state.monitors[1].workspaces[0].config.page_key(),
        Some(PageKey::first("1"))
    );
}

#[test]
fn default_workspace_falls_back_to_configs_and_then_to_groups() {
    let config = user_config(vec![
        workspace_config("1", Some(MonitorSelector::All)),
        workspace_config("2", None),
    ]);
    let mut state = wm_state(vec![monitor(1, 0), monitor(2, 1), monitor(3, 2)]);
    state.attach_workspace(0, regular(10, "2"));

    assert_eq!(activate_default_workspace(1, &mut state, &config), Ok(()));
    assert_eq!(activate_default_workspace(2, &mut state, &config), Ok(()));

    assert_eq!(names(&state.monitors[1]), ["1"]);
    assert_eq!(names(&state.monitors[2]), ["1#00000000"]);

    let nothing = user_config(Vec::new());
    assert_eq!(
        activate_default_workspace(2, &mut state, &nothing),
        Err(WmError::NoWorkspaceConfig)
    );
}

#[test]
fn default_workspace_is_a_regular_one_if_possible() {
    let mut bound = workspace_config("3", None);
    bound.bind_to_monitor = Some(1);
    let config = user_config(vec![
        workspace_config("1", Some(MonitorSelector::All)),
        workspace_config("2", None),
        bound,
    ]);
    let mut state = wm_state(vec![monitor(1, 0), monitor(2, 1)]);

    assert_eq!(activate_default_workspace(0, &mut state, &config), Ok(()));
    assert_eq!(activate_default_workspace(1, &mut state, &config), Ok(()));

    assert_eq!(names(&state.monitors[0]), ["2"]);
    assert_eq!(state.monitors[0].workspaces[0].home, None);
    assert_eq!(state.monitors[0].workspaces[0].config.page_key(), None);
    assert_eq!(names(&state.monitors[1]), ["3"]);
}

#[test]
fn default_workspace_of_a_spanning_config_bound_to_the_monitor_yields_to_a_regular_one() {
    let mut bound = workspace_config("1", Some(MonitorSelector::All));
    bound.bind_to_monitor = Some(0);
    let config = user_config(vec![bound, workspace_config("2", None)]);
    let mut state = wm_state(vec![monitor(1, 0)]);

    assert_eq!(activate_default_workspace(0, &mut state, &config), Ok(()));

    assert_eq!(names(&state.monitors[0]), ["2"]);
}
