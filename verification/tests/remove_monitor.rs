use glazewm::config::{
    FloatingStateConfig, FullscreenStateConfig, GeneralConfig, HideMethod, InitialWindowState,
    ParsedConfig, WindowBehaviorConfig, WindowState, WindowStateDefaultsConfig,
};
use glazewm::container::{ContainerRef, DisplayState, Node, NodeContent, Window};
use glazewm::geometry::{Rect, TilingDirection};
use glazewm::merge_spanning_instances::merge_spanning_instances;
use glazewm::monitor::Monitor;
use glazewm::pending_sync::PendingSync;
use glazewm::remove_monitor::remove_monitor;
use glazewm::user_config::UserConfig;
use glazewm::wm_error::WmError;
use glazewm::wm_event::WmEvent;
use glazewm::wm_state::WmState;
use glazewm::workspace::Workspace;
use glazewm::workspace_config::{MonitorSelector, WorkspaceConfig};

fn workspace_config(name: &str, monitors: Option<MonitorSelector>) -> WorkspaceConfig {
    WorkspaceConfig {
        name: name.to_string(),
        display_name: None,
        bind_to_monitor: None,
        keep_alive: false,
        monitors,
        spanning_group: None,
        spanning_page: 0,
    }
}

fn user_config(workspaces: Vec<WorkspaceConfig>) -> UserConfig {
    UserConfig::new(
        String::new(),
        ParsedConfig {
            general: GeneralConfig {
                toggle_workspace_on_refocus: false,
                focus_follows_cursor: true,
                hide_method: HideMethod::Cloak,
            },
            window_behavior: WindowBehaviorConfig {
                initial_state: InitialWindowState::Tiling,
                state_defaults: WindowStateDefaultsConfig {
                    floating: FloatingStateConfig { centered: true, shown_on_top: false },
                    fullscreen: FullscreenStateConfig { maximized: false, shown_on_top: true },
                },
            },
            window_rules: Vec::new(),
            workspaces,
            keybindings: Vec::new(),
        },
        String::new(),
    )
}

/// A 1000x800 monitor at the given index, without workspaces.
fn monitor(id: u128, index: i32) -> Monitor {
    Monitor {
        id,
        device_name: format!("DISPLAY{id}"),
        device_path: None,
        bounds: Rect::from_xy(1000 * index, 0, 1000, 800),
        workspace_area: Rect::from_xy(1000 * index, 0, 1000, 800),
        workspaces: Vec::new(),
        focus_order: Vec::new(),
    }
}

/// A state with the given monitors, the first of them focused.
fn wm_state(monitors: Vec<Monitor>) -> WmState {
    WmState {
        focus_order: monitors.iter().map(|monitor| monitor.id).collect(),
        monitors,
        nodes: Vec::new(),
        window_focus_order: Vec::new(),
        recent_workspace_name: None,
        is_focus_synced: true,
        is_paused: false,
        ignored_windows: Vec::new(),
        pending_sync: PendingSync::new(),
        events: Vec::new(),
        next_id: 1000,
    }
}

/// A regular workspace.
fn regular(id: u128, name: &str) -> Workspace {
    Workspace::new(id, workspace_config(name, None), TilingDirection::Horizontal)
}

/// An instance of a page of a spanning workspace.
fn instance(id: u128, name: &str, group: &str, page: usize) -> Workspace {
    let mut config = workspace_config(name, Some(MonitorSelector::All));
    config.spanning_group = Some(group.to_string());
    config.spanning_page = page;
    Workspace::new(id, config, TilingDirection::Horizontal)
}

fn window_node(id: u128, workspace: u128, state: WindowState) -> Node {
    Node {
        id,
        workspace,
        parent: None,
        area: Rect::from_xy(0, 0, 500, 800),
        content: NodeContent::Window(Window {
            native: id as isize,
            title: "title".to_string(),
            class_name: "class".to_string(),
            process_name: "process".to_string(),
            frame: Rect::from_xy(0, 0, 500, 800),
            is_minimized: false,
            is_maximized: false,
            state,
            prev_state: None,
            display_state: DisplayState::Shown,
            active_drag: None,
            floating_placement: Rect::from_xy(10, 10, 200, 100),
            insertion_target: None,
            has_pending_dpi_adjustment: false,
            done_window_rules: Vec::new(),
        }),
    }
}

/// Adds a tiling window to a workspace, at the front of the focus order.
fn add_window(state: &mut WmState, id: u128, workspace: u128) {
    state.nodes.push(window_node(id, workspace, WindowState::Tiling));
    state.window_focus_order.insert(0, id);
}

/// Names of the workspaces of a monitor, in order.
fn names(monitor: &Monitor) -> Vec<&str> {
    monitor.workspaces.iter().map(|workspace| workspace.config.name.as_str()).collect()
}

/// Name of the workspace that a monitor displays.
fn displayed(monitor: &Monitor) -> Option<&str> {
    monitor.displayed_workspace().map(|at| monitor.workspaces[at].config.name.as_str())
}

fn config() -> UserConfig {
    user_config(vec![
        workspace_config("1", Some(MonitorSelector::All)),
        workspace_config("a", None),
        workspace_config("b", None),
    ])
}

#[test]
fn workspaces_with_windows_outlive_their_monitor() {
    let mut state = wm_state(vec![monitor(1, 0), monitor(2, 1)]);
    state.attach_workspace(0, regular(10, "b"));
    state.attach_workspace(1, regular(11, "a"));
    state.attach_workspace(1, regular(12, "empty"));
    add_window(&mut state, 51, 11);

    assert_eq!(remove_monitor(1, &mut state, &config()), Ok(()));

    assert_eq!(state.monitors.len(), 1);
    assert_eq!(state.focus_order, vec![1]);
    assert_eq!(names(&state.monitors[0]), ["a", "b"]);
    assert_eq!(displayed(&state.monitors[0]), Some("b"));
    assert_eq!(
        state.events,
        vec![
            WmEvent::WorkspaceUpdated { updated_workspace: 11 },
            WmEvent::MonitorRemoved {
                removed_id: 2,
                removed_device_name: "DISPLAY2".to_string(),
            },
        ]
    );
}

#[test]
fn focused_regular_workspace_stays_displayed() {
    let mut state = wm_state(vec![monitor(1, 0), monitor(2, 1)]);
    state.attach_workspace(0, regular(10, "a"));
    state.attach_workspace(1, regular(11, "b"));
    add_window(&mut state, 50, 10);

    assert_eq!(remove_monitor(0, &mut state, &config()), Ok(()));

    assert_eq!(state.monitors[0].id, 2);
    assert_eq!(displayed(&state.monitors[0]), Some("a"));
    assert_eq!(state.focused_container(), Some(ContainerRef::Window(50)));
    assert!(state.pending_sync.needs_focus_update);
}

#[test]
fn parked_instances_stay_hidden() {
    let mut state = wm_state(vec![monitor(1, 0), monitor(2, 1)]);
    state.attach_workspace(0, instance(10, "1", "1", 1));
    state.attach_workspace(1, instance(11, "1#2", "1", 1));
    add_window(&mut state, 50, 10);

    assert_eq!(remove_monitor(0, &mut state, &config()), Ok(()));

    assert_eq!(names(&state.monitors[0]), ["1#2", "1"]);
    assert_eq!(displayed(&state.monitors[0]), Some("1#2"));
    assert_eq!(state.focused_container(), Some(ContainerRef::Workspace(11)));
}

#[test]
fn last_monitor_cannot_be_removed() {
    let mut state = wm_state(vec![monitor(1, 0)]);
    state.attach_workspace(0, regular(10, "a"));

    assert_eq!(remove_monitor(0, &mut state, &config()), Err(WmError::NoMonitorToMoveTo));
    assert_eq!(state.monitors.len(), 1);
}

#[test]
fn heir_has_to_display_a_workspace() {
    let mut state = wm_state(vec![monitor(1, 0), monitor(2, 1)]);
    state.attach_workspace(0, regular(10, "a"));

    assert_eq!(remove_monitor(0, &mut state, &config()), Err(WmError::NoDisplayedWorkspace));
}

#[test]
fn merging_appends_children_and_destroys_the_source() {
    let mut state = wm_state(vec![monitor(1, 0)]);
    state.attach_workspace(0, instance(10, "1", "1", 1));
    state.attach_workspace(0, instance(11, "1#2", "1", 1));
    state.nodes.push(window_node(60, 11, WindowState::Tiling));
    state.nodes.push(window_node(50, 10, WindowState::Tiling));
    let mut nested = window_node(61, 11, WindowState::Tiling);
    nested.parent = Some(62);
    state.nodes.push(nested);

    assert_eq!(merge_spanning_instances(11, 10, &mut state), Ok(()));

    let nodes = state
        .nodes
        .iter()
        .map(|node| (node.id, node.workspace, node.parent))
        .collect::<Vec<_>>();
    assert_eq!(nodes, vec![(50, 10, None), (60, 10, None), (61, 10, Some(62))]);
    assert_eq!(names(&state.monitors[0]), ["1"]);
    assert_eq!(
        state.events,
        vec![WmEvent::WorkspaceDeactivated {
            deactivated_id: 11,
            deactivated_name: "1#2".to_string(),
        }]
    );
    assert_eq!(merge_spanning_instances(11, 10, &mut state), Err(WmError::Detached));
}
