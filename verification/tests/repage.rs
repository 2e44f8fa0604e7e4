use glazewm::config::{
    FloatingStateConfig, FullscreenStateConfig, GeneralConfig, HideMethod, InitialWindowState,
    ParsedConfig, WindowBehaviorConfig, WindowState, WindowStateDefaultsConfig,
};
use glazewm::container::{ContainerRef, DisplayState, Node, NodeContent, Window};
use glazewm::geometry::{Rect, TilingDirection};
use glazewm::monitor::Monitor;
use glazewm::monitor_identity::MonitorIdentity;
use glazewm::orientation::Orientation;
use glazewm::page_placement::PagePlacement;
use glazewm::pending_sync::PendingSync;
use glazewm::repage_spanning_desktops::{
    apply_placement, needs_transposition, repage_spanning_desktops, transpose_layout,
    windows_fit_monitors,
};
use glazewm::user_config::UserConfig;
use glazewm::wm_error::WmError;
use glazewm::wm_event::WmEvent;
use glazewm::wm_state::WmState;
use glazewm::workspace::Workspace;
use glazewm::workspace_config::{MonitorSelector, WorkspaceConfig};

fn workspace_config(name: &str, monitors: Option<MonitorSelector>) -> WorkspaceConfig {
    WorkspaceConfig {
        name: name.to_string(),
        display_name: None,
        bind_to_monitor: None,
        keep_alive: false,
        monitors,
        spanning_group: None,
        spanning_page: 0,
    }
}

fn user_config(workspaces: Vec<WorkspaceConfig>) -> UserConfig {
    UserConfig::new(
        String::new(),
        ParsedConfig {
            general: GeneralConfig {
                toggle_workspace_on_refocus: false,
                focus_follows_cursor: true,
                hide_method: HideMethod::Cloak,
            },
            window_behavior: WindowBehaviorConfig {
                initial_state: InitialWindowState::Tiling,
                state_defaults: WindowStateDefaultsConfig {
                    floating: FloatingStateConfig { centered: true, shown_on_top: false },
                    fullscreen: FullscreenStateConfig { maximized: false, shown_on_top: true },
                },
            },
            window_rules: Vec::new(),
            workspaces,
            keybindings: Vec::new(),
        },
        String::new(),
    )
}

/// A 1000x800 monitor at the given index, without workspaces.
fn monitor(id: u128, index: i32) -> Monitor {
    Monitor {
        id,
        device_name: format!("DISPLAY{id}"),
        device_path: None,
        bounds: Rect::from_xy(1000 * index, 0, 1000, 800),
        workspace_area: Rect::from_xy(1000 * index, 0, 1000, 800),
        workspaces: Vec::new(),
        focus_order: Vec::new(),
    }
}

/// A state with the given monitors, the first of them focused.
fn wm_state(monitors: Vec<Monitor>) -> WmState {
    WmState {
        focus_order: monitors.iter().map(|monitor| monitor.id).collect(),
        monitors,
        nodes: Vec::new(),
        window_focus_order: Vec::new(),
        recent_workspace_name: None,
        is_focus_synced: true,
        is_paused: false,
        ignored_windows: Vec::new(),
        pending_sync: PendingSync::new(),
        events: Vec::new(),
        next_id: 1000,
    }
}

/// A regular workspace.
fn regular(id: u128, name: &str) -> Workspace {
    Workspace::new(id, workspace_config(name, None), TilingDirection::Horizontal)
}

/// An instance of a page of a spanning workspace.
fn instance(id: u128, name: &str, group: &str, page: usize) -> Workspace {
    let mut config = workspace_config(name, Some(MonitorSelector::All));
    config.spanning_group = Some(group.to_string());
    config.spanning_page = page;
    Workspace::new(id, config, TilingDirection::Horizontal)
}

fn window_node(id: u128, workspace: u128, state: WindowState) -> Node {
    Node {
        id,
        workspace,
        parent: None,
        area: Rect::from_xy(0, 0, 500, 800),
        content: NodeContent::Window(Window {
            native: id as isize,
            title: "title".to_string(),
            class_name: "class".to_string(),
            process_name: "process".to_string(),
            frame: Rect::from_xy(0, 0, 500, 800),
            is_minimized: false,
            is_maximized: false,
            state,
            prev_state: None,
            display_state: DisplayState::Shown,
            active_drag: None,
            floating_placement: Rect::from_xy(10, 10, 200, 100),
            insertion_target: None,
            has_pending_dpi_adjustment: false,
            done_window_rules: Vec::new(),
        }),
    }
}

/// Adds a tiling window to a workspace, at the front of the focus order.
fn add_window(state: &mut WmState, id: u128, workspace: u128) {
    state.nodes.push(window_node(id, workspace, WindowState::Tiling));
    state.window_focus_order.insert(0, id);
}

/// Names of the workspaces of a monitor, in order.
fn names(monitor: &Monitor) -> Vec<&str> {
    monitor.workspaces.iter().map(|workspace| workspace.config.name.as_str()).collect()
}

/// Name of the workspace that a monitor displays.
fn displayed(monitor: &Monitor) -> Option<&str> {
    monitor.displayed_workspace().map(|at| monitor.workspaces[at].config.name.as_str())
}

fn split_node(id: u128, workspace: u128, tiling_direction: TilingDirection) -> Node {
    Node {
        id,
        workspace,
        parent: None,
        area: Rect::from_xy(0, 0, 500, 800),
        content: NodeContent::Split { tiling_direction },
    }
}

fn direction_of(node: &Node) -> TilingDirection {
    match &node.content {
        NodeContent::Split { tiling_direction } => *tiling_direction,
        NodeContent::Window(_) => panic!("Node should be a split container."),
    }
}

fn window_of(state: &WmState, id: u128) -> &Window {
    let node = state.nodes.iter().find(|node| node.id == id).expect("Node should exist.");
    match &node.content {
        NodeContent::Window(window) => window,
        NodeContent::Split { .. } => panic!("Node should be a window."),
    }
}

fn group_config() -> UserConfig {
    user_config(vec![workspace_config("1", Some(MonitorSelector::All))])
}

#[test]
fn transposing_flips_workspace_and_nested_splits() {
    let mut state = wm_state(vec![monitor(1, 0)]);
    let mut workspace = regular(10, "1");
    workspace.tiling_direction = TilingDirection::Vertical;
    state.attach_workspace(0, workspace);
    state.nodes.push(window_node(50, 10, WindowState::Tiling));
    state.nodes.push(split_node(51, 10, TilingDirection::Horizontal));
    for id in [52, 53] {
        let mut child = window_node(id, 10, WindowState::Tiling);
        child.parent = Some(51);
        state.nodes.push(child);
    }

    transpose_layout(0, 0, &mut state);

    assert_eq!(state.monitors[0].workspaces[0].tiling_direction, TilingDirection::Horizontal);
    assert_eq!(direction_of(&state.nodes[1]), TilingDirection::Vertical);

    // Transposing twice restores the original layout.
    transpose_layout(0, 0, &mut state);

    assert_eq!(state.monitors[0].workspaces[0].tiling_direction, TilingDirection::Vertical);
    assert_eq!(direction_of(&state.nodes[1]), TilingDirection::Horizontal);
}

#[test]
fn transposition_depends_on_layout_orientation_not_on_host() {
    let mut portrait = monitor(1, 0);
    portrait.bounds = Rect::from_xy(-1080, 0, 1080, 1920);
    let landscape = monitor(2, 1);

    // A portrait layout parked (untransposed) on a landscape monitor.
    let mut workspace = regular(10, "1");
    workspace.tiling_direction = TilingDirection::Vertical;
    workspace.layout_orientation = Orientation::Portrait;
    workspace.monitor = Some(2);

    assert!(needs_transposition(&workspace, &landscape));
    assert!(!needs_transposition(&workspace, &portrait));

    // Once transposed, staying on the landscape monitor needs nothing, while going back home
    // needs the layout transposed back.
    workspace.is_transposed = true;

    assert!(!needs_transposition(&workspace, &landscape));
    assert!(needs_transposition(&workspace, &portrait));
}

#[test]
fn splits_of_other_workspaces_are_not_transposed() {
    let mut state = wm_state(vec![monitor(1, 0)]);
    state.attach_workspace(0, regular(10, "1"));
    state.attach_workspace(0, regular(11, "2"));
    state.nodes.push(split_node(51, 11, TilingDirection::Horizontal));

    transpose_layout(0, 0, &mut state);

    assert_eq!(direction_of(&state.nodes[0]), TilingDirection::Horizontal);
    assert_eq!(state.monitors[0].workspaces[1].tiling_direction, TilingDirection::Horizontal);
}

#[test]
fn instances_return_to_a_reconnected_monitor() {
    let layout = vec![monitor(1, 0), monitor(2, 1)];
    let mut state = wm_state(layout);
    let mut first = instance(10, "1", "1", 1);
    first.home = Some(MonitorIdentity::of(&state.monitors, 0));
    let mut second = instance(11, "1#2", "1", 2);
    second.home = Some(MonitorIdentity::of(&state.monitors, 1));
    state.attach_workspace(0, first);
    state.attach_workspace(0, second);
    add_window(&mut state, 50, 10);
    add_window(&mut state, 51, 11);
    state.window_focus_order = vec![50, 51];

    assert_eq!(repage_spanning_desktops(&mut state, &group_config()), Ok(true));

    assert_eq!(names(&state.monitors[0]), ["1"]);
    assert_eq!(names(&state.monitors[1]), ["1#2"]);
    assert_eq!(state.monitors[1].workspaces[0].config.spanning_page, 1);
    assert_eq!(state.monitors[1].workspaces[0].monitor, Some(2));
    // Windows of the moved instance are centered on the monitor.
    assert!(window_of(&state, 51).has_pending_dpi_adjustment);
    assert_eq!(window_of(&state, 51).floating_placement, Rect::from_xy(1400, 350, 200, 100));
    assert!(!window_of(&state, 50).has_pending_dpi_adjustment);
    assert_eq!(state.events, vec![WmEvent::WorkspaceUpdated { updated_workspace: 11 }]);
    assert!(state.pending_sync.containers_to_redraw.contains(&11));
    assert_eq!(state.focused_container(), Some(ContainerRef::Window(50)));

    // Everything is in its place now.
    assert_eq!(repage_spanning_desktops(&mut state, &group_config()), Ok(false));
    assert_eq!(state.events.len(), 1);
}

#[test]
fn focus_follows_a_moved_instance() {
    let mut state = wm_state(vec![monitor(1, 0), monitor(2, 1)]);
    let mut second = instance(11, "1#2", "1", 1);
    second.home = Some(MonitorIdentity::of(&state.monitors, 1));
    state.attach_workspace(0, second);
    state.attach_workspace(1, regular(12, "a"));
    add_window(&mut state, 51, 11);

    assert_eq!(repage_spanning_desktops(&mut state, &group_config()), Ok(true));

    assert_eq!(state.focused_container(), Some(ContainerRef::Window(51)));
    assert_eq!(state.focus_order, vec![2, 1]);
    assert_eq!(displayed(&state.monitors[1]), Some("1#2"));
    assert!(state.pending_sync.needs_focus_update);
    // The monitor that was left behind gets a default workspace.
    assert_eq!(state.monitors[0].workspaces.len(), 1);
}

#[test]
fn hidden_empty_instances_are_destroyed_away_from_home() {
    let layout = vec![monitor(1, 0), monitor(2, 1)];
    let mut state = wm_state(vec![monitor(1, 0)]);
    let mut first = instance(10, "1", "1", 1);
    first.home = Some(MonitorIdentity::of(&layout, 0));
    let mut away = instance(11, "1#2", "1", 1);
    away.home = Some(MonitorIdentity::of(&layout, 1));
    away.config.keep_alive = true;
    let mut kept = instance(12, "1#3", "1", 1);
    kept.home = Some(MonitorIdentity::of(&layout, 0));
    kept.config.keep_alive = true;
    state.attach_workspace(0, first);
    state.attach_workspace(0, away);
    state.attach_workspace(0, kept);

    assert_eq!(repage_spanning_desktops(&mut state, &group_config()), Ok(true));

    assert_eq!(names(&state.monitors[0]), ["1", "1#3"]);
    assert!(state.events.contains(&WmEvent::WorkspaceDeactivated {
        deactivated_id: 11,
        deactivated_name: "1#2".to_string(),
    }));
}

#[test]
fn first_page_instances_settle_on_their_host() {
    let mut state = wm_state(vec![monitor(1, 0)]);
    state.attach_workspace(0, instance(10, "1", "1", 1));

    assert_eq!(repage_spanning_desktops(&mut state, &group_config()), Ok(false));

    assert_eq!(
        state.monitors[0].workspaces[0].home,
        Some(MonitorIdentity::of(&state.monitors, 0))
    );
}

#[test]
fn layouts_are_transposed_away_from_home_and_back() {
    let mut portrait = monitor(1, 0);
    portrait.bounds = Rect::from_xy(0, 0, 800, 1000);
    let full_layout = vec![portrait, monitor(2, 1)];
    let mut state = wm_state(vec![monitor(2, 1)]);
    let mut screen = instance(10, "1", "1", 1);
    screen.home = Some(MonitorIdentity::of(&full_layout, 0));
    screen.tiling_direction = TilingDirection::Vertical;
    screen.layout_orientation = Orientation::Portrait;
    state.attach_workspace(0, screen);
    add_window(&mut state, 50, 10);

    assert_eq!(repage_spanning_desktops(&mut state, &group_config()), Ok(true));
    assert!(state.monitors[0].workspaces[0].is_transposed);
    assert_eq!(state.monitors[0].workspaces[0].tiling_direction, TilingDirection::Horizontal);

    // The portrait monitor comes back.
    let mut portrait = monitor(1, 0);
    portrait.bounds = Rect::from_xy(0, 0, 800, 1000);
    state.monitors.insert(0, portrait);
    state.focus_order.push(1);

    assert_eq!(repage_spanning_desktops(&mut state, &group_config()), Ok(true));
    assert_eq!(names(&state.monitors[0]), ["1"]);
    assert!(!state.monitors[0].workspaces[0].is_transposed);
    assert_eq!(state.monitors[0].workspaces[0].tiling_direction, TilingDirection::Vertical);
}

#[test]
fn renumbered_instances_get_the_label_of_their_page() {
    let layout = vec![monitor(1, 0), monitor(2, 1)];
    let mut state = wm_state(vec![monitor(1, 0)]);
    let mut first = instance(10, "1", "1", 1);
    first.home = Some(MonitorIdentity::of(&layout, 0));
    let mut second = instance(11, "1#2", "1", 3);
    second.home = Some(MonitorIdentity::of(&layout, 1));
    state.attach_workspace(0, first);
    state.attach_workspace(0, second);
    add_window(&mut state, 51, 11);

    assert_eq!(repage_spanning_desktops(&mut state, &group_config()), Ok(true));

    let config = &state.monitors[0].workspaces[1].config;
    assert_eq!(config.name, "1#2");
    assert_eq!(config.display_name, Some("1/2".to_string()));
    assert_eq!(config.spanning_page, 2);
    assert_eq!(config.logical_name(), "1/2");
}

#[test]
fn nothing_is_distributed_without_monitors_or_groups() {
    let mut nothing = wm_state(Vec::new());
    assert_eq!(repage_spanning_desktops(&mut nothing, &group_config()), Ok(false));

    let mut empty = wm_state(vec![monitor(1, 0)]);
    assert_eq!(
        repage_spanning_desktops(&mut empty, &user_config(Vec::new())),
        Err(WmError::NoWorkspaceConfig)
    );
}

#[test]
fn group_that_is_configured_twice_reports_destroyed_instances() {
    let config = user_config(vec![
        workspace_config("1", Some(MonitorSelector::All)),
        workspace_config("1", Some(MonitorSelector::All)),
    ]);
    let layout = vec![monitor(1, 0), monitor(2, 1)];
    let mut state = wm_state(vec![monitor(1, 0)]);
    let mut away = instance(11, "1#2", "1", 2);
    away.home = Some(MonitorIdentity::of(&layout, 1));
    state.attach_workspace(0, regular(10, "a"));
    state.attach_workspace(0, away);

    assert_eq!(repage_spanning_desktops(&mut state, &config), Err(WmError::Detached));
}

#[test]
fn oversized_windows_of_instances_are_detected() {
    let mut state = wm_state(vec![monitor(1, 0)]);
    state.attach_workspace(0, regular(10, "a"));
    state.attach_workspace(0, instance(11, "1", "1", 1));
    add_window(&mut state, 50, 10);
    add_window(&mut state, 51, 11);
    assert!(windows_fit_monitors(&state));

    let enlarge = |state: &mut WmState, at: usize| {
        if let NodeContent::Window(window) = &mut state.nodes[at].content {
            window.floating_placement =
                Rect { left: i32::MIN, top: 0, right: i32::MAX, bottom: 10 };
        }
    };
    // Windows of regular workspaces stay on their monitor.
    enlarge(&mut state, 0);
    assert!(windows_fit_monitors(&state));
    enlarge(&mut state, 1);
    assert!(!windows_fit_monitors(&state));
}

#[test]
fn moved_instances_wait_behind_the_displayed_one() {
    let mut state = wm_state(vec![monitor(1, 0), monitor(2, 1)]);
    let mut second = instance(11, "1#2", "1", 2);
    second.home = Some(MonitorIdentity::of(&state.monitors, 1));
    state.attach_workspace(0, regular(10, "a"));
    state.attach_workspace(0, second);
    state.attach_workspace(1, regular(12, "b"));
    add_window(&mut state, 51, 11);

    assert_eq!(repage_spanning_desktops(&mut state, &group_config()), Ok(true));

    assert_eq!(displayed(&state.monitors[0]), Some("a"));
    assert_eq!(displayed(&state.monitors[1]), Some("b"));
    assert_eq!(state.monitors[1].focus_order, vec![12, 11]);
    assert!(!state.pending_sync.needs_focus_update);
}

/// Monitors and pages of all instances, in order.
fn slots(state: &WmState) -> Vec<(usize, usize)> {
    let mut slots = Vec::new();
    for (index, monitor) in state.monitors.iter().enumerate() {
        for workspace in &monitor.workspaces {
            slots.push((workspace.config.spanning_page, index));
        }
    }
    slots.sort();
    slots
}

/// Two monitors, the first of which has all instances of disconnected ones on one page.
fn crowded() -> WmState {
    let layout = (0..5).map(|index| monitor(10 + index, index as i32)).collect::<Vec<_>>();
    let mut state = wm_state(vec![monitor(1, 0), monitor(2, 1)]);
    for (id, index) in [(20, 4), (21, 0), (22, 3), (23, 2)] {
        let mut workspace = instance(id, &format!("1#{id}"), "1", 1);
        workspace.home = Some(MonitorIdentity::of(&layout, index));
        state.attach_workspace(0, workspace);
        add_window(&mut state, 100 + id, id);
    }
    state
}

#[test]
fn distributed_instances_share_no_slot_and_leave_no_gap() {
    let mut state = crowded();

    assert_eq!(repage_spanning_desktops(&mut state, &group_config()), Ok(true));

    assert_eq!(slots(&state), vec![(1, 0), (1, 1), (2, 0), (2, 1)]);
    assert_eq!(
        state.monitors[0].workspaces.iter().map(|workspace| workspace.id).max(),
        Some(22)
    );
}

#[test]
fn placements_are_applied_once() {
    let mut state = crowded();
    assert_eq!(repage_spanning_desktops(&mut state, &group_config()), Ok(true));
    let placed = slots(&state);
    let homes = |state: &WmState| {
        state.workspaces().iter().map(|workspace| workspace.home.clone()).collect::<Vec<_>>()
    };
    let recorded = homes(&state);

    assert_eq!(repage_spanning_desktops(&mut state, &group_config()), Ok(false));

    assert_eq!(slots(&state), placed);
    assert_eq!(homes(&state), recorded);
}

#[test]
fn placement_that_is_applied_again_changes_nothing() {
    let mut portrait = monitor(2, 1);
    portrait.bounds = Rect::from_xy(1000, 0, 800, 1000);
    portrait.workspace_area = portrait.bounds;
    let mut state = wm_state(vec![monitor(1, 0), portrait]);
    state.attach_workspace(0, regular(10, "a"));
    state.attach_workspace(0, instance(11, "1#x", "1", 3));
    add_window(&mut state, 50, 11);
    let group = workspace_config("1", Some(MonitorSelector::All));
    let placement =
        PagePlacement { workspace: 11, instance: 0, monitor: 1, page: 1, is_home: true };

    assert_eq!(apply_placement(&placement, &group, &mut state), Ok(true));

    let placed = &state.monitors[1].workspaces[0];
    assert_eq!(placed.monitor, Some(2));
    assert_eq!(placed.config.name, "1#x");
    assert_eq!(placed.config.spanning_page, 1);
    assert_eq!(placed.home, Some(MonitorIdentity::of(&state.monitors, 1)));
    assert!(!needs_transposition(placed, &state.monitors[1]));
    assert!(placed.is_transposed);

    let tiling_direction = placed.tiling_direction;
    let event_count = state.events.len();
    assert_eq!(apply_placement(&placement, &group, &mut state), Ok(false));
    assert_eq!(state.events.len(), event_count);
    assert_eq!(state.monitors[1].workspaces[0].config.spanning_page, 1);
    assert_eq!(state.monitors[1].workspaces[0].tiling_direction, tiling_direction);

    let missing = PagePlacement { workspace: 99, ..placement };
    assert_eq!(apply_placement(&missing, &group, &mut state), Err(WmError::Detached));
}
