use glazewm::config::WindowState;
use glazewm::container::{DisplayState, Node, NodeContent, Window};
use glazewm::geometry::Rect;
use glazewm::handle_window_focused::manage_focused_window;
use glazewm::ignore_uncontrollable_window::ignore_uncontrollable_window;
use glazewm::monitor::Monitor;
use glazewm::pending_sync::PendingSync;
use glazewm::window_recovery::{
    show_released_window, ManagedWindowsRecord, NativeProperties, ReleaseFailure, WindowRecord,
};
use glazewm::wm_state::WmState;

/// A state with the given monitors, the first of them focused.
fn wm_state(monitors: Vec<Monitor>) -> WmState {
    WmState {
        focus_order: monitors.iter().map(|monitor| monitor.id).collect(),
        monitors,
        nodes: Vec::new(),
        window_focus_order: Vec::new(),
        recent_workspace_name: None,
        is_focus_synced: true,
        is_paused: false,
        ignored_windows: Vec::new(),
        pending_sync: PendingSync::new(),
        events: Vec::new(),
        next_id: 1000,
    }
}

fn window_node(id: u128, workspace: u128, state: WindowState) -> Node {
    Node {
        id,
        workspace,
        parent: None,
        area: Rect::from_xy(0, 0, 500, 800),
        content: NodeContent::Window(Window {
            native: id as isize,
            title: "title".to_string(),
            class_name: "class".to_string(),
            process_name: "process".to_string(),
            frame: Rect::from_xy(0, 0, 500, 800),
            is_minimized: false,
            is_maximized: false,
            state,
            prev_state: None,
            display_state: DisplayState::Shown,
            active_drag: None,
            floating_placement: Rect::from_xy(10, 10, 200, 100),
            insertion_target: None,
            has_pending_dpi_adjustment: false,
            done_window_rules: Vec::new(),
        }),
    }
}

fn sample_record() -> WindowRecord {
    WindowRecord {
        handle: 1234,
        process_name: "chrome".to_string(),
        class_name: "Chrome_WidgetWin_1".to_string(),
    }
}

#[test]
fn recorded_handle_has_to_refer_to_the_same_window() {
    let record = sample_record();
    let native = |is_valid: bool, process: Option<&str>, class: Option<&str>| NativeProperties {
        is_valid,
        process_name: process.map(str::to_string),
        class_name: class.map(str::to_string),
    };

    assert!(record.matches(&native(true, Some("chrome"), Some("Chrome_WidgetWin_1"))));
    assert!(!record.matches(&native(false, Some("chrome"), Some("Chrome_WidgetWin_1"))));
    assert!(!record.matches(&native(true, Some("edge"), Some("Chrome_WidgetWin_1"))));
    assert!(!record.matches(&native(true, Some("chrome"), Some("x"))));
    assert!(!record.matches(&native(true, None, Some("Chrome_WidgetWin_1"))));
    assert!(!record.matches(&native(true, Some("chrome"), None)));
}

#[test]
fn unchanged_records_are_not_written_again() {
    let mut state = wm_state(Vec::new());
    state.nodes.push(window_node(7, 1, WindowState::Tiling));
    let mut record = ManagedWindowsRecord::at_path("managed-windows.json".to_string());

    let records = record.update(&state).expect("Records should be written.");
    assert_eq!(
        records,
        vec![WindowRecord {
            handle: 7,
            process_name: "process".to_string(),
            class_name: "class".to_string(),
        }]
    );
    record.mark_written(records);
    assert_eq!(record.update(&state), None);

    state.nodes.push(window_node(8, 1, WindowState::Tiling));
    assert_eq!(record.update(&state).map(|records| records.len()), Some(2));

    record.clear();
    assert!(record.is_written(&Vec::new()));
    assert!(!record.is_written(&vec![sample_record()]));
    assert_eq!(record.path, "managed-windows.json");
}

#[test]
fn nothing_is_written_before_the_first_update() {
    let record = ManagedWindowsRecord::at_path(String::new());

    assert!(!record.is_written(&Vec::new()));
    assert_eq!(record.update(&wm_state(Vec::new())), Some(Vec::new()));
}

#[test]
fn failures_to_release_a_window_are_listed() {
    assert_eq!(show_released_window(true, true), vec![]);
    assert_eq!(show_released_window(false, true), vec![ReleaseFailure::Visibility]);
    assert_eq!(
        show_released_window(false, false),
        vec![ReleaseFailure::Visibility, ReleaseFailure::Taskbar]
    );
}

#[test]
fn uncontrollable_windows_are_ignored() {
    let mut state = wm_state(Vec::new());
    state.nodes.push(window_node(7, 1, WindowState::Tiling));

    assert_eq!(ignore_uncontrollable_window(7, &mut state), Some(7));
    assert_eq!(state.ignored_windows, vec![7]);
    assert_eq!(ignore_uncontrollable_window(8, &mut state), None);
    assert!(!manage_focused_window(7, &state));
}
