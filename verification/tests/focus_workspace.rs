use glazewm::config::{
    FloatingStateConfig, FullscreenStateConfig, GeneralConfig, HideMethod, InitialWindowState,
    ParsedConfig, WindowBehaviorConfig, WindowState, WindowStateDefaultsConfig,
};
use glazewm::container::{ContainerRef, DisplayState, Node, NodeContent, Window};
use glazewm::focus_spanning_workspace::can_focus_page;
use glazewm::focus_workspace::{
    can_focus_target, focus_workspace, focus_workspace_instance, WorkspaceTarget,
};
use glazewm::geometry::{Rect, TilingDirection};
use glazewm::monitor::Monitor;
use glazewm::page_key::PageKey;
use glazewm::pending_sync::PendingSync;
use glazewm::user_config::UserConfig;
use glazewm::wm_error::WmError;
use glazewm::wm_event::WmEvent;
use glazewm::wm_state::WmState;
use glazewm::workspace::Workspace;
use glazewm::workspace_config::{MonitorSelector, WorkspaceConfig};

fn workspace_config(name: &str, monitors: Option<MonitorSelector>) -> WorkspaceConfig {
    WorkspaceConfig {
        name: name.to_string(),
        display_name: None,
        bind_to_monitor: None,
        keep_alive: false,
        monitors,
        spanning_group: None,
        spanning_page: 0,
    }
}

fn user_config(workspaces: Vec<WorkspaceConfig>) -> UserConfig {
    UserConfig::new(
        String::new(),
        ParsedConfig {
            general: GeneralConfig {
                toggle_workspace_on_refocus: false,
                focus_follows_cursor: true,
                hide_method: HideMethod::Cloak,
            },
            window_behavior: WindowBehaviorConfig {
                initial_state: InitialWindowState::Tiling,
                state_defaults: WindowStateDefaultsConfig {
                    floating: FloatingStateConfig { centered: true, shown_on_top: false },
                    fullscreen: FullscreenStateConfig { maximized: false, shown_on_top: true },
                },
            },
            window_rules: Vec::new(),
            workspaces,
            keybindings: Vec::new(),
        },
        String::new(),
    )
}

/// A 1000x800 monitor at the given index, without workspaces.
fn monitor(id: u128, index: i32) -> Monitor {
    Monitor {
        id,
        device_name: format!("DISPLAY{id}"),
        device_path: None,
        bounds: Rect::from_xy(1000 * index, 0, 1000, 800),
        workspace_area: Rect::from_xy(1000 * index, 0, 1000, 800),
        workspaces: Vec::new(),
        focus_order: Vec::new(),
    }
}

/// A state with the given monitors, the first of them focused.
fn wm_state(monitors: Vec<Monitor>) -> WmState {
    WmState {
        focus_order: monitors.iter().map(|monitor| monitor.id).collect(),
        monitors,
        nodes: Vec::new(),
        window_focus_order: Vec::new(),
        recent_workspace_name: None,
        is_focus_synced: true,
        is_paused: false,
        ignored_windows: Vec::new(),
        pending_sync: PendingSync::new(),
        events: Vec::new(),
        next_id: 1000,
    }
}

/// A regular workspace.
fn regular(id: u128, name: &str) -> Workspace {
    Workspace::new(id, workspace_config(name, None), TilingDirection::Horizontal)
}

/// An instance of a page of a spanning workspace.
fn instance(id: u128, name: &str, group: &str, page: usize) -> Workspace {
    let mut config = workspace_config(name, Some(MonitorSelector::All));
    config.spanning_group = Some(group.to_string());
    config.spanning_page = page;
    Workspace::new(id, config, TilingDirection::Horizontal)
}

fn window_node(id: u128, workspace: u128, state: WindowState) -> Node {
    Node {
        id,
        workspace,
        parent: None,
        area: Rect::from_xy(0, 0, 500, 800),
        content: NodeContent::Window(Window {
            native: id as isize,
            title: "title".to_string(),
            class_name: "class".to_string(),
            process_name: "process".to_string(),
            frame: Rect::from_xy(0, 0, 500, 800),
            is_minimized: false,
            is_maximized: false,
            state,
            prev_state: None,
            display_state: DisplayState::Shown,
            active_drag: None,
            floating_placement: Rect::from_xy(10, 10, 200, 100),
            insertion_target: None,
            has_pending_dpi_adjustment: false,
            done_window_rules: Vec::new(),
        }),
    }
}

/// Adds a tiling window to a workspace, at the front of the focus order.
fn add_window(state: &mut WmState, id: u128, workspace: u128) {
    state.nodes.push(window_node(id, workspace, WindowState::Tiling));
    state.window_focus_order.insert(0, id);
}

/// Names of the workspaces of a monitor, in order.
fn names(monitor: &Monitor) -> Vec<&str> {
    monitor.workspaces.iter().map(|workspace| workspace.config.name.as_str()).collect()
}

/// Name of the workspace that a monitor displays.
fn displayed(monitor: &Monitor) -> Option<&str> {
    monitor.displayed_workspace().map(|at| monitor.workspaces[at].config.name.as_str())
}

fn config() -> UserConfig {
    user_config(vec![
        workspace_config("1", Some(MonitorSelector::All)),
        workspace_config("a", None),
        workspace_config("b", None),
    ])
}

fn name(name: &str) -> WorkspaceTarget {
    WorkspaceTarget::Name(name.to_string())
}

/// Two monitors that display regular workspaces with a window each.
fn two_monitors() -> WmState {
    let mut state = wm_state(vec![monitor(1, 0), monitor(2, 1)]);
    state.attach_workspace(0, regular(10, "a"));
    state.attach_workspace(1, regular(11, "b"));
    add_window(&mut state, 50, 10);
    add_window(&mut state, 51, 11);
    state
}

#[test]
fn focuses_an_active_workspace_by_name() {
    let mut state = two_monitors();

    assert_eq!(focus_workspace(name("b"), &mut state, &config()), Ok(()));

    assert_eq!(state.focused_container(), Some(ContainerRef::Window(51)));
    assert_eq!(state.focus_order, vec![2, 1]);
    assert_eq!(state.recent_workspace_name, Some("a".to_string()));
    assert!(state.pending_sync.needs_focus_update);
    assert!(state.pending_sync.needs_cursor_jump);
}

#[test]
fn activates_an_inactive_workspace() {
    let mut state = wm_state(vec![monitor(1, 0)]);
    state.attach_workspace(0, regular(10, "a"));
    add_window(&mut state, 50, 10);

    assert_eq!(focus_workspace(name("b"), &mut state, &config()), Ok(()));

    assert_eq!(names(&state.monitors[0]), ["a", "b"]);
    assert_eq!(displayed(&state.monitors[0]), Some("b"));
    assert_eq!(state.focused_container(), Some(ContainerRef::Workspace(1000)));
}

#[test]
fn emptied_workspace_is_destroyed_when_hidden() {
    let mut state = wm_state(vec![monitor(1, 0)]);
    state.attach_workspace(0, regular(10, "a"));

    assert_eq!(focus_workspace(name("b"), &mut state, &config()), Ok(()));

    assert_eq!(names(&state.monitors[0]), ["b"]);
    assert!(state.events.contains(&WmEvent::WorkspaceDeactivated {
        deactivated_id: 10,
        deactivated_name: "a".to_string(),
    }));
}

#[test]
fn kept_alive_workspace_outlives_being_hidden() {
    let mut state = wm_state(vec![monitor(1, 0)]);
    let mut kept = regular(10, "a");
    kept.config.keep_alive = true;
    state.attach_workspace(0, kept);

    assert_eq!(focus_workspace(name("b"), &mut state, &config()), Ok(()));

    assert_eq!(names(&state.monitors[0]), ["a", "b"]);
}

#[test]
fn refocusing_toggles_only_if_configured() {
    let mut state = two_monitors();
    state.recent_workspace_name = Some("b".to_string());

    assert_eq!(focus_workspace(name("a"), &mut state, &config()), Ok(()));
    assert_eq!(state.focused_container(), Some(ContainerRef::Window(50)));

    let mut toggling = config();
    toggling.value.general.toggle_workspace_on_refocus = true;
    assert_eq!(focus_workspace(name("a"), &mut state, &toggling), Ok(()));
    assert_eq!(state.focused_container(), Some(ContainerRef::Window(51)));
    assert_eq!(state.recent_workspace_name, Some("a".to_string()));
}

#[test]
fn focuses_recent_and_adjacent_workspaces() {
    let mut state = two_monitors();

    // There is no recent workspace yet.
    assert_eq!(focus_workspace(WorkspaceTarget::Recent, &mut state, &config()), Ok(()));
    assert_eq!(state.focused_container(), Some(ContainerRef::Window(50)));

    let adjacent = WorkspaceTarget::Adjacent(Some(11));
    assert_eq!(focus_workspace(adjacent, &mut state, &config()), Ok(()));
    assert_eq!(state.focused_container(), Some(ContainerRef::Window(51)));

    assert_eq!(focus_workspace(WorkspaceTarget::Recent, &mut state, &config()), Ok(()));
    assert_eq!(state.focused_container(), Some(ContainerRef::Window(50)));

    let nowhere = WorkspaceTarget::Adjacent(None);
    assert_eq!(focus_workspace(nowhere, &mut state, &config()), Ok(()));
    assert_eq!(state.focused_container(), Some(ContainerRef::Window(50)));
}

#[test]
fn name_of_a_page_switches_all_monitors() {
    let mut state = two_monitors();

    assert_eq!(focus_workspace(name("1"), &mut state, &config()), Ok(()));

    for monitor in &state.monitors {
        let at = monitor.displayed_workspace().expect("Workspace should be displayed.");
        assert_eq!(monitor.workspaces[at].config.page_key(), Some(PageKey::first("1")));
    }
}

#[test]
fn unknown_workspaces_are_reported() {
    let mut state = two_monitors();

    assert_eq!(
        focus_workspace(name("9"), &mut state, &config()),
        Err(WmError::WorkspaceUnavailable("9".to_string()))
    );

    let mut nothing = wm_state(Vec::new());
    assert_eq!(
        focus_workspace(name("a"), &mut nothing, &config()),
        Err(WmError::NoFocusedWorkspace)
    );
}

#[test]
fn focusing_an_instance_leaves_other_monitors_alone() {
    let mut state = two_monitors();
    state.attach_workspace(1, instance(12, "1", "1", 1));

    assert_eq!(focus_workspace_instance(12, &mut state), Ok(()));

    assert_eq!(displayed(&state.monitors[0]), Some("a"));
    assert_eq!(displayed(&state.monitors[1]), Some("1"));
    assert_eq!(state.focused_container(), Some(ContainerRef::Workspace(12)));
    assert!(state.pending_sync.containers_to_redraw.contains(&11));
    assert!(state.pending_sync.containers_to_redraw.contains(&12));

    assert_eq!(
        focus_workspace_instance(99, &mut state),
        Err(WmError::NoDisplayedWorkspace)
    );
}

#[test]
fn errors_read_as_what_is_missing() {
    let cases = [
        (WmError::NoFocusedContainer, "No focused container."),
        (WmError::NoFocusedWorkspace, "No workspace is currently focused."),
        (WmError::NoFocusedMonitor, "No monitor is currently focused."),
        (WmError::NoDisplayedWorkspace, "No workspace is currently displayed."),
        (WmError::Detached, "Workspace has no monitor."),
        (WmError::NoTargetMonitor, "Failed to get a target monitor for the workspace."),
        (WmError::NoWorkspaceConfig, "No workspace config available to activate workspace."),
        (
            WmError::WorkspaceUnavailable("x".to_string()),
            "Workspace with name 'x' doesn't exist or is already active.",
        ),
        (
            WmError::NoSpanningConfig("x".to_string()),
            "No spanning workspace config with name 'x'.",
        ),
        (WmError::NoMonitorToMoveTo, "No target monitor to move workspaces."),
        (WmError::NoMonitorAtCursor, "No monitor under cursor."),
        (WmError::NoNearestMonitor, "Failed to get workspace of nearest monitor."),
        (WmError::NoDropWorkspace, "Couldn't find workspace for window drop."),
        (
            WmError::NoDropParent,
            "Nearest container has no direction container as parent.",
        ),
    ];

    for (error, message) in cases {
        assert_eq!(error.message(), message);
    }
}

#[test]
fn toggling_between_two_names_of_a_page_is_detected() {
    let mut toggling = config();
    toggling.value.general.toggle_workspace_on_refocus = true;
    let mut state = wm_state(vec![monitor(1, 0)]);
    state.attach_workspace(0, instance(10, "1/2", "1", 1));

    // The instance kept the name of the page that it was on before.
    state.recent_workspace_name = Some("1/2".to_string());
    assert!(!can_focus_page(&PageKey::first("1"), &state, &toggling));
    assert!(!can_focus_target(&name("1"), &state, &toggling));
    assert!(can_focus_target(&name("a"), &state, &toggling));
    assert!(can_focus_page(&PageKey::first("1"), &state, &config()));

    state.recent_workspace_name = Some("a".to_string());
    assert!(can_focus_page(&PageKey::first("1"), &state, &toggling));
}
