use glazewm::config::{
    FloatingStateConfig, FullscreenStateConfig, GeneralConfig, HideMethod, InitialWindowState,
    ParsedConfig, WindowBehaviorConfig, WindowState, WindowStateDefaultsConfig,
};
use glazewm::container::{ContainerRef, DisplayState, Node, NodeContent, Window};
use glazewm::focus_spanning_workspace::{
    focus_spanning_workspace, spanning_instance_on_monitor, spanning_instances_on_monitor,
    sync_monitors_to_page,
};
use glazewm::geometry::{Rect, TilingDirection};
use glazewm::monitor::Monitor;
use glazewm::monitor_identity::MonitorIdentity;
use glazewm::page_key::PageKey;
use glazewm::pending_sync::PendingSync;
use glazewm::user_config::UserConfig;
use glazewm::wm_error::WmError;
use glazewm::wm_event::WmEvent;
use glazewm::wm_state::WmState;
use glazewm::workspace::Workspace;
use glazewm::workspace_config::{MonitorSelector, WorkspaceConfig};

fn workspace_config(name: &str, monitors: Option<MonitorSelector>) -> WorkspaceConfig {
    WorkspaceConfig {
        name: name.to_string(),
        display_name: None,
        bind_to_monitor: None,
        keep_alive: false,
        monitors,
        spanning_group: None,
        spanning_page: 0,
    }
}

fn user_config(workspaces: Vec<WorkspaceConfig>) -> UserConfig {
    UserConfig::new(
        String::new(),
        ParsedConfig {
            general: GeneralConfig {
                toggle_workspace_on_refocus: false,
                focus_follows_cursor: true,
                hide_method: HideMethod::Cloak,
            },
            window_behavior: WindowBehaviorConfig {
                initial_state: InitialWindowState::Tiling,
                state_defaults: WindowStateDefaultsConfig {
                    floating: FloatingStateConfig { centered: true, shown_on_top: false },
                    fullscreen: FullscreenStateConfig { maximized: false, shown_on_top: true },
                },
            },
            window_rules: Vec::new(),
            workspaces,
            keybindings: Vec::new(),
        },
        String::new(),
    )
}

/// A 1000x800 monitor at the given index, without workspaces.
fn monitor(id: u128, index: i32) -> Monitor {
    Monitor {
        id,
        device_name: format!("DISPLAY{id}"),
        device_path: None,
        bounds: Rect::from_xy(1000 * index, 0, 1000, 800),
        workspace_area: Rect::from_xy(1000 * index, 0, 1000, 800),
        workspaces: Vec::new(),
        focus_order: Vec::new(),
    }
}

/// A state with the given monitors, the first of them focused.
fn wm_state(monitors: Vec<Monitor>) -> WmState {
    WmState {
        focus_order: monitors.iter().map(|monitor| monitor.id).collect(),
        monitors,
        nodes: Vec::new(),
        window_focus_order: Vec::new(),
        recent_workspace_name: None,
        is_focus_synced: true,
        is_paused: false,
        ignored_windows: Vec::new(),
        pending_sync: PendingSync::new(),
        events: Vec::new(),
        next_id: 1000,
    }
}

/// A regular workspace.
fn regular(id: u128, name: &str) -> Workspace {
    Workspace::new(id, workspace_config(name, None), TilingDirection::Horizontal)
}

/// An instance of a page of a spanning workspace.
fn instance(id: u128, name: &str, group: &str, page: usize) -> Workspace {
    let mut config = workspace_config(name, Some(MonitorSelector::All));
    config.spanning_group = Some(group.to_string());
    config.spanning_page = page;
    Workspace::new(id, config, TilingDirection::Horizontal)
}

fn window_node(id: u128, workspace: u128, state: WindowState) -> Node {
    Node {
        id,
        workspace,
        parent: None,
        area: Rect::from_xy(0, 0, 500, 800),
        content: NodeContent::Window(Window {
            native: id as isize,
            title: "title".to_string(),
            class_name: "class".to_string(),
            process_name: "process".to_string(),
            frame: Rect::from_xy(0, 0, 500, 800),
            is_minimized: false,
            is_maximized: false,
            state,
            prev_state: None,
            display_state: DisplayState::Shown,
            active_drag: None,
            floating_placement: Rect::from_xy(10, 10, 200, 100),
            insertion_target: None,
            has_pending_dpi_adjustment: false,
            done_window_rules: Vec::new(),
        }),
    }
}

/// Adds a tiling window to a workspace, at the front of the focus order.
fn add_window(state: &mut WmState, id: u128, workspace: u128) {
    state.nodes.push(window_node(id, workspace, WindowState::Tiling));
    state.window_focus_order.insert(0, id);
}

/// Names of the workspaces of a monitor, in order.
fn names(monitor: &Monitor) -> Vec<&str> {
    monitor.workspaces.iter().map(|workspace| workspace.config.name.as_str()).collect()
}

/// Name of the workspace that a monitor displays.
fn displayed(monitor: &Monitor) -> Option<&str> {
    monitor.displayed_workspace().map(|at| monitor.workspaces[at].config.name.as_str())
}

/// Mocks a spanning workspace instance with the given name and page.
fn mock_instance(id: u128, name: &str, group_name: &str, page: usize) -> Workspace {
    instance(id, name, group_name, page)
}

fn page(group: &str, page: usize) -> PageKey {
    PageKey { group: group.to_string(), page }
}

fn mock_monitor(workspaces: Vec<Workspace>) -> Monitor {
    let mut mock = monitor(1, 0);
    for workspace in workspaces {
        mock.attach(workspace);
    }
    mock
}

#[test]
fn finds_instance_by_page() {
    let monitor = mock_monitor(vec![
        regular(10, "1"),
        mock_instance(11, "2#abc123", "2", 1),
        mock_instance(12, "2/2", "2", 2),
    ]);

    let instance = spanning_instance_on_monitor(&monitor, &page("2", 1))
        .expect("Instance should be found.");
    assert_eq!(instance.config.name, "2#abc123");

    let instance = spanning_instance_on_monitor(&monitor, &page("2", 2))
        .expect("Instance should be found.");
    assert_eq!(instance.config.name, "2/2");

    assert!(spanning_instance_on_monitor(&monitor, &page("2", 3)).is_none());
    assert!(spanning_instance_on_monitor(&monitor, &page("3", 1)).is_none());
}

#[test]
fn prefers_most_recently_focused_duplicate() {
    let mut monitor = mock_monitor(vec![
        mock_instance(10, "2", "2", 1),
        mock_instance(11, "2#dup", "2", 1),
    ]);

    // The first attached workspace is at the front of the focus order.
    let instance = spanning_instance_on_monitor(&monitor, &page("2", 1))
        .expect("Instance should be found.");
    assert_eq!(instance.config.name, "2");

    // After focusing the duplicate, it takes precedence.
    monitor.display(11);

    let instance = spanning_instance_on_monitor(&monitor, &page("2", 1))
        .expect("Instance should be found.");
    assert_eq!(instance.config.name, "2#dup");
}

#[test]
fn lists_all_duplicates_by_recency() {
    let mut monitor = mock_monitor(vec![
        mock_instance(10, "2", "2", 1),
        regular(11, "1"),
        mock_instance(12, "2#dup", "2", 1),
    ]);

    monitor.display(12);

    let names = spanning_instances_on_monitor(&monitor, &page("2", 1))
        .iter()
        .map(|workspace| workspace.config.name.clone())
        .collect::<Vec<_>>();

    assert_eq!(names, vec!["2#dup".to_string(), "2".to_string()]);
    assert!(spanning_instances_on_monitor(&monitor, &page("3", 1)).is_empty());
}

#[test]
fn bounded_focus_changes_displayed_workspace() {
    let mut monitor = mock_monitor(vec![regular(10, "1"), mock_instance(11, "2", "2", 1)]);

    assert_eq!(displayed(&monitor), Some("1"));

    monitor.display(11);

    assert_eq!(displayed(&monitor), Some("2"));
}

/// Two monitors that display regular workspaces, and a spanning group `1`.
fn two_monitors() -> (WmState, UserConfig) {
    let config = user_config(vec![
        workspace_config("1", Some(MonitorSelector::All)),
        workspace_config("a", None),
        workspace_config("b", None),
    ]);
    let mut state = wm_state(vec![monitor(1, 0), monitor(2, 1)]);
    state.attach_workspace(0, regular(10, "a"));
    state.attach_workspace(1, regular(11, "b"));
    (state, config)
}

#[test]
fn page_is_displayed_on_every_monitor() {
    let (mut state, config) = two_monitors();
    add_window(&mut state, 50, 10);
    add_window(&mut state, 51, 11);

    assert_eq!(sync_monitors_to_page(&page("1", 1), &mut state, &config), Ok(true));

    assert_eq!(displayed(&state.monitors[0]), Some("1#00000000"));
    assert_eq!(displayed(&state.monitors[1]), Some("1"));
    // The focused monitor keeps focus.
    assert_eq!(state.focus_order, vec![1, 2]);
    assert!(state.pending_sync.needs_focus_update);
    assert!(!state.pending_sync.needs_cursor_jump);
    assert_eq!(state.recent_workspace_name, None);

    // Everything is in place already.
    let event_count = state.events.len();
    assert_eq!(sync_monitors_to_page(&page("1", 1), &mut state, &config), Ok(false));
    assert_eq!(state.events.len(), event_count);
}

#[test]
fn idle_workspaces_are_destroyed_by_a_page_switch() {
    let (mut state, config) = two_monitors();
    add_window(&mut state, 50, 10);

    assert_eq!(sync_monitors_to_page(&page("1", 1), &mut state, &config), Ok(true));

    assert_eq!(names(&state.monitors[0]), ["1#00000000", "a"]);
    assert_eq!(names(&state.monitors[1]), ["1"]);
    assert!(state.events.contains(&WmEvent::WorkspaceDeactivated {
        deactivated_id: 11,
        deactivated_name: "b".to_string(),
    }));
}

#[test]
fn display_changes_are_queued_and_announced() {
    let (mut state, config) = two_monitors();
    add_window(&mut state, 50, 10);
    add_window(&mut state, 51, 11);

    assert_eq!(sync_monitors_to_page(&page("1", 1), &mut state, &config), Ok(true));

    for id in [10, 11, 1000, 1001] {
        assert!(state.pending_sync.containers_to_redraw.contains(&id));
        assert!(state
            .events
            .contains(&WmEvent::WorkspaceUpdated { updated_workspace: id }));
    }
}

#[test]
fn syncing_needs_a_focused_monitor_with_a_workspace() {
    let config = user_config(vec![workspace_config("1", Some(MonitorSelector::All))]);

    let mut nothing = wm_state(Vec::new());
    assert_eq!(
        sync_monitors_to_page(&page("1", 1), &mut nothing, &config),
        Err(WmError::NoFocusedMonitor)
    );

    let mut empty = wm_state(vec![monitor(1, 0)]);
    assert_eq!(
        sync_monitors_to_page(&page("1", 1), &mut empty, &config),
        Err(WmError::NoDisplayedWorkspace)
    );

    let (mut state, config) = two_monitors();
    assert_eq!(
        sync_monitors_to_page(&page("9", 1), &mut state, &config),
        Err(WmError::NoSpanningConfig("9".to_string()))
    );
}

#[test]
fn focusing_a_page_remembers_where_focus_came_from() {
    let (mut state, config) = two_monitors();
    add_window(&mut state, 50, 10);

    assert_eq!(focus_spanning_workspace(&page("1", 1), &mut state, &config), Ok(()));

    assert_eq!(state.recent_workspace_name, Some("a".to_string()));
    assert!(state.pending_sync.needs_cursor_jump);
    assert_eq!(displayed(&state.monitors[0]), Some("1#00000000"));
    assert_eq!(displayed(&state.monitors[1]), Some("1"));
}

#[test]
fn focusing_the_focused_page_toggles_back() {
    let (mut state, mut config) = two_monitors();
    config.value.general.toggle_workspace_on_refocus = true;
    add_window(&mut state, 50, 10);
    assert_eq!(focus_spanning_workspace(&page("1", 1), &mut state, &config), Ok(()));

    assert_eq!(focus_spanning_workspace(&page("1", 1), &mut state, &config), Ok(()));

    assert_eq!(displayed(&state.monitors[0]), Some("a"));
    assert_eq!(state.focused_container(), Some(ContainerRef::Window(50)));
    assert_eq!(state.recent_workspace_name, Some("1".to_string()));
}

#[test]
fn focusing_a_page_needs_a_focused_workspace() {
    let config = user_config(vec![workspace_config("1", Some(MonitorSelector::All))]);
    let mut state = wm_state(vec![monitor(1, 0)]);

    assert_eq!(
        focus_spanning_workspace(&page("1", 1), &mut state, &config),
        Err(WmError::NoFocusedWorkspace)
    );
}

#[test]
fn screens_of_disconnected_monitors_are_browsed_by_page() {
    let config = user_config(vec![workspace_config("1", Some(MonitorSelector::All))]);
    let layout = vec![monitor(1, 0), monitor(2, 1)];
    let mut state = wm_state(vec![monitor(1, 0)]);
    let mut first = instance(10, "1", "1", 1);
    first.home = Some(MonitorIdentity::of(&layout, 0));
    let mut second = instance(11, "1#2", "1", 1);
    second.home = Some(MonitorIdentity::of(&layout, 1));
    state.attach_workspace(0, first);
    state.attach_workspace(0, second);
    add_window(&mut state, 50, 10);
    add_window(&mut state, 51, 11);

    assert_eq!(focus_spanning_workspace(&page("1", 2), &mut state, &config), Ok(()));
    assert_eq!(displayed(&state.monitors[0]), Some("1#2"));
    assert_eq!(state.focused_container(), Some(ContainerRef::Window(51)));

    assert_eq!(focus_spanning_workspace(&page("1", 1), &mut state, &config), Ok(()));
    assert_eq!(displayed(&state.monitors[0]), Some("1"));
    assert_eq!(state.recent_workspace_name, Some("1/2".to_string()));
}

#[test]
fn first_page_stays_displayed_while_further_pages_are_renumbered() {
    let config = user_config(vec![workspace_config("1", Some(MonitorSelector::All))]);
    let layout = vec![monitor(1, 0), monitor(2, 1), monitor(3, 2), monitor(4, 3)];
    let mut state = wm_state(vec![monitor(1, 0), monitor(2, 1)]);
    let at_home = |id, name: &str, index| {
        let mut workspace = instance(id, name, "1", 1);
        workspace.home = Some(MonitorIdentity::of(&layout[0..2], index));
        workspace
    };
    let away = |id, name: &str, index| {
        let mut workspace = instance(id, name, "1", 2);
        workspace.home = Some(MonitorIdentity::of(&layout, index));
        workspace
    };
    state.attach_workspace(0, away(12, "1#x", 2));
    state.attach_workspace(0, at_home(10, "1", 0));
    state.attach_workspace(1, away(13, "1#z", 3));
    state.attach_workspace(1, at_home(11, "1#b", 1));
    add_window(&mut state, 50, 10);
    add_window(&mut state, 51, 11);
    add_window(&mut state, 52, 13);
    assert_eq!(displayed(&state.monitors[0]), Some("1#x"));

    assert_eq!(focus_spanning_workspace(&page("1", 1), &mut state, &config), Ok(()));

    // The empty instance is destroyed, and the one behind it takes its place.
    assert_eq!(displayed(&state.monitors[0]), Some("1"));
    assert_eq!(displayed(&state.monitors[1]), Some("1#b"));
    assert_eq!(names(&state.monitors[0]), ["1", "1#z"]);
    assert_eq!(names(&state.monitors[1]), ["1#b"]);
    assert_eq!(state.monitors[0].workspaces[1].config.spanning_page, 2);
}

#[test]
fn toggling_back_displays_the_recent_page_on_every_monitor() {
    let mut config = user_config(vec![
        workspace_config("1", Some(MonitorSelector::All)),
        workspace_config("2", Some(MonitorSelector::All)),
    ]);
    config.value.general.toggle_workspace_on_refocus = true;
    let mut state = wm_state(vec![monitor(1, 0), monitor(2, 1)]);
    state.attach_workspace(0, instance(10, "1", "1", 1));
    state.attach_workspace(1, instance(11, "1#b", "1", 1));
    add_window(&mut state, 50, 10);
    add_window(&mut state, 51, 11);
    state.set_focused_descendant(ContainerRef::Workspace(11));

    assert_eq!(focus_spanning_workspace(&page("2", 1), &mut state, &config), Ok(()));
    for monitor in &state.monitors {
        let shown = &monitor.workspaces[monitor.displayed_workspace().expect("Shown.")];
        assert_eq!(shown.config.page_key(), Some(page("2", 1)));
    }
    // The focused monitor keeps focus.
    assert_eq!(state.focused_monitor(), Some(1));

    // The page is focused already, so that this leads back.
    assert_eq!(focus_spanning_workspace(&page("2", 1), &mut state, &config), Ok(()));
    assert_eq!(displayed(&state.monitors[0]), Some("1"));
    assert_eq!(displayed(&state.monitors[1]), Some("1#b"));
    assert_eq!(state.focused_monitor(), Some(1));
}

#[test]
fn further_page_stays_displayed_while_other_pages_change() {
    let config = user_config(vec![workspace_config("1", Some(MonitorSelector::All))]);
    let layout = (0..6).map(|index| monitor(10 + index, index as i32)).collect::<Vec<_>>();
    let mut state = wm_state(vec![monitor(1, 0), monitor(2, 1)]);
    // Screens of disconnected monitors on the second and third page. The left one of the third
    // page is empty, and displayed.
    let screens = [(24, 0, 4), (25, 1, 5), (20, 0, 0), (21, 1, 1), (22, 0, 2), (23, 1, 3)];
    for (id, host, home) in screens {
        let page = 1 + home / 2;
        let mut workspace = instance(id, &format!("1#{id}"), "1", page);
        workspace.home = Some(MonitorIdentity::of(&layout, home));
        state.attach_workspace(host, workspace);
        if id != 24 {
            add_window(&mut state, 100 + id, id);
        }
    }

    assert_eq!(focus_spanning_workspace(&page("1", 2), &mut state, &config), Ok(()));

    // The empty screen is destroyed, and the one next to it takes its place.
    assert_eq!(displayed(&state.monitors[0]), Some("1#22"));
    assert_eq!(displayed(&state.monitors[1]), Some("1#23"));
    assert_eq!(names(&state.monitors[0]), ["1#20", "1#22", "1#25"]);
    assert_eq!(names(&state.monitors[1]), ["1#21", "1#23"]);
    assert_eq!(state.focused_monitor(), Some(0));
}
