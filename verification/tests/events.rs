use glazewm::active_drag::{ActiveDrag, ActiveDragOperation};
use glazewm::config::{
    FloatingStateConfig, FullscreenStateConfig, GeneralConfig, HideMethod, InitialWindowState,
    ParsedConfig, WindowBehaviorConfig, WindowState, WindowStateDefaultsConfig,
};
use glazewm::container::{ContainerRef, DisplayState, Node, NodeContent, Window};
use glazewm::geometry::{Point, Rect, TilingDirection};
use glazewm::handle_mouse_move::{
    handle_mouse_move, needs_window_below_cursor, update_frame, MouseButton, MouseEvent, MouseQuery,
};
use glazewm::handle_window_focused::{
    can_focus_window, finish_window_focus, handle_window_focused, has_stale_cloak,
    manage_focused_window, restore_focused_window, FocusAction, FocusQuery,
};
use glazewm::handle_window_hidden::{handle_window_hidden, HiddenAction, HiddenQuery};
use glazewm::monitor::Monitor;
use glazewm::pending_sync::PendingSync;
use glazewm::user_config::UserConfig;
use glazewm::wm_error::WmError;
use glazewm::wm_event::WmEvent;
use glazewm::wm_state::WmState;
use glazewm::workspace::Workspace;
use glazewm::workspace_config::{MonitorSelector, WorkspaceConfig};

fn workspace_config(name: &str, monitors: Option<MonitorSelector>) -> WorkspaceConfig {
    WorkspaceConfig {
        name: name.to_string(),
        display_name: None,
        bind_to_monitor: None,
        keep_alive: false,
        monitors,
        spanning_group: None,
        spanning_page: 0,
    }
}

fn user_config(workspaces: Vec<WorkspaceConfig>) -> UserConfig {
    UserConfig::new(
        String::new(),
        ParsedConfig {
            general: GeneralConfig {
                toggle_workspace_on_refocus: false,
                focus_follows_cursor: true,
                hide_method: HideMethod::Cloak,
            },
            window_behavior: WindowBehaviorConfig {
                initial_state: InitialWindowState::Tiling,
                state_defaults: WindowStateDefaultsConfig {
                    floating: FloatingStateConfig { centered: true, shown_on_top: false },
                    fullscreen: FullscreenStateConfig { maximized: false, shown_on_top: true },
                },
            },
            window_rules: Vec::new(),
            workspaces,
            keybindings: Vec::new(),
        },
        String::new(),
    )
}

/// A 1000x800 monitor at the given index, without workspaces.
fn monitor(id: u128, index: i32) -> Monitor {
    Monitor {
        id,
        device_name: format!("DISPLAY{id}"),
        device_path: None,
        bounds: Rect::from_xy(1000 * index, 0, 1000, 800),
        workspace_area: Rect::from_xy(1000 * index, 0, 1000, 800),
        workspaces: Vec::new(),
        focus_order: Vec::new(),
    }
}

/// A state with the given monitors, the first of them focused.
fn wm_state(monitors: Vec<Monitor>) -> WmState {
    WmState {
        focus_order: monitors.iter().map(|monitor| monitor.id).collect(),
        monitors,
        nodes: Vec::new(),
        window_focus_order: Vec::new(),
        recent_workspace_name: None,
        is_focus_synced: true,
        is_paused: false,
        ignored_windows: Vec::new(),
        pending_sync: PendingSync::new(),
        events: Vec::new(),
        next_id: 1000,
    }
}

/// A regular workspace.
fn regular(id: u128, name: &str) -> Workspace {
    Workspace::new(id, workspace_config(name, None), TilingDirection::Horizontal)
}

/// An instance of a page of a spanning workspace.
fn instance(id: u128, name: &str, group: &str, page: usize) -> Workspace {
    let mut config = workspace_config(name, Some(MonitorSelector::All));
    config.spanning_group = Some(group.to_string());
    config.spanning_page = page;
    Workspace::new(id, config, TilingDirection::Horizontal)
}

fn window_node(id: u128, workspace: u128, state: WindowState) -> Node {
    Node {
        id,
        workspace,
        parent: None,
        area: Rect::from_xy(0, 0, 500, 800),
        content: NodeContent::Window(Window {
            native: id as isize,
            title: "title".to_string(),
            class_name: "class".to_string(),
            process_name: "process".to_string(),
            frame: Rect::from_xy(0, 0, 500, 800),
            is_minimized: false,
            is_maximized: false,
            state,
            prev_state: None,
            display_state: DisplayState::Shown,
            active_drag: None,
            floating_placement: Rect::from_xy(10, 10, 200, 100),
            insertion_target: None,
            has_pending_dpi_adjustment: false,
            done_window_rules: Vec::new(),
        }),
    }
}

/// Adds a tiling window to a workspace, at the front of the focus order.
fn add_window(state: &mut WmState, id: u128, workspace: u128) {
    state.nodes.push(window_node(id, workspace, WindowState::Tiling));
    state.window_focus_order.insert(0, id);
}

/// Name of the workspace that a monitor displays.
fn displayed(monitor: &Monitor) -> Option<&str> {
    monitor.displayed_workspace().map(|at| monitor.workspaces[at].config.name.as_str())
}

fn config() -> UserConfig {
    user_config(vec![workspace_config("a", None), workspace_config("b", None)])
}

fn edit_window(state: &mut WmState, id: u128, edit: impl Fn(&mut Window)) {
    let node = state.nodes.iter_mut().find(|node| node.id == id).expect("Node should exist.");
    match &mut node.content {
        NodeContent::Window(window) => edit(window),
        NodeContent::Split { .. } => panic!("Node should be a window."),
    }
}

fn read_window<T>(state: &WmState, id: u128, read: impl Fn(&Window) -> T) -> T {
    let node = state.nodes.iter().find(|node| node.id == id).expect("Node should exist.");
    match &node.content {
        NodeContent::Window(window) => read(window),
        NodeContent::Split { .. } => panic!("Node should be a window."),
    }
}

fn drag(is_from_floating: bool, is_from_manage: bool) -> Option<ActiveDrag> {
    Some(ActiveDrag {
        operation: Some(ActiveDragOperation::Move),
        is_from_floating,
        initial_position: Rect::from_xy(0, 0, 500, 800),
        is_from_manage,
    })
}

/// Two monitors that display regular workspaces with a window each.
fn two_monitors() -> WmState {
    let mut state = wm_state(vec![monitor(1, 0), monitor(2, 1)]);
    state.attach_workspace(0, regular(10, "a"));
    state.attach_workspace(1, regular(11, "b"));
    add_window(&mut state, 51, 11);
    add_window(&mut state, 50, 10);
    state
}

fn desktop_query() -> FocusQuery {
    FocusQuery { is_desktop_window: false, since_unmanage: None }
}

#[test]
fn native_focus_of_the_focused_window_is_synced() {
    let mut state = two_monitors();
    state.is_focus_synced = false;

    let result = handle_window_focused(50, &desktop_query(), &mut state, &config());

    assert_eq!(result, Ok(FocusAction::Done));
    assert!(state.is_focus_synced);
    assert!(state.pending_sync.needs_focused_effect_update);
    assert!(state.pending_sync.workspaces_to_reorder.contains(&10));
}

#[test]
fn manual_focus_is_followed() {
    let mut state = two_monitors();

    let result = handle_window_focused(51, &desktop_query(), &mut state, &config());

    assert_eq!(result, Ok(FocusAction::RunRules { window: 51, workspace: 11 }));
    assert_eq!(state.focused_container(), Some(ContainerRef::Window(51)));
    assert!(!state.is_focus_synced);

    finish_window_focus(51, 11, &mut state);
    assert!(state.is_focus_synced);
    assert!(state.pending_sync.workspaces_to_reorder.contains(&11));
    assert_eq!(
        state.events,
        vec![WmEvent::FocusChanged { focused_container: ContainerRef::Window(51) }]
    );
}

#[test]
fn focus_is_overridden_shortly_after_a_window_is_closed() {
    let mut state = two_monitors();
    let query = |since_unmanage| FocusQuery { is_desktop_window: false, since_unmanage };

    let result = handle_window_focused(51, &query(Some(99)), &mut state, &config());
    assert_eq!(result, Ok(FocusAction::Done));
    assert_eq!(state.focused_container(), Some(ContainerRef::Window(50)));
    assert!(state.pending_sync.needs_focus_update);
    assert!(!state.pending_sync.needs_focused_effect_update);

    let result = handle_window_focused(51, &query(Some(100)), &mut state, &config());
    assert_eq!(result, Ok(FocusAction::RunRules { window: 51, workspace: 11 }));
}

#[test]
fn windows_that_are_being_hidden_are_not_focused() {
    let mut state = two_monitors();
    edit_window(&mut state, 51, |window| window.display_state = DisplayState::Hiding);

    let result = handle_window_focused(51, &desktop_query(), &mut state, &config());

    assert_eq!(result, Ok(FocusAction::Done));
    assert!(!state.pending_sync.needs_focused_effect_update);
}

#[test]
fn off_screen_window_displays_its_workspace() {
    let mut state = two_monitors();
    state.attach_workspace(1, regular(12, "c"));
    add_window(&mut state, 52, 12);
    edit_window(&mut state, 52, |window| window.display_state = DisplayState::Hidden);

    let result = handle_window_focused(52, &desktop_query(), &mut state, &config());

    assert_eq!(result, Ok(FocusAction::RunRules { window: 52, workspace: 12 }));
    assert_eq!(displayed(&state.monitors[1]), Some("c"));
    assert_eq!(state.recent_workspace_name, Some("a".to_string()));

    let mut spanning = two_monitors();
    spanning.attach_workspace(1, instance(12, "1", "1", 1));
    add_window(&mut spanning, 52, 12);
    edit_window(&mut spanning, 52, |window| window.display_state = DisplayState::Hidden);

    let result = handle_window_focused(52, &desktop_query(), &mut spanning, &config());

    assert_eq!(result, Ok(FocusAction::RunRules { window: 52, workspace: 12 }));
    assert_eq!(displayed(&spanning.monitors[0]), Some("a"));
    assert_eq!(displayed(&spanning.monitors[1]), Some("1"));
    assert_eq!(spanning.recent_workspace_name, None);
}

#[test]
fn desktop_is_in_sync_with_an_empty_workspace() {
    let mut state = wm_state(vec![monitor(1, 0)]);
    state.attach_workspace(0, regular(10, "a"));
    let query = FocusQuery { is_desktop_window: true, since_unmanage: Some(5) };

    assert_eq!(
        handle_window_focused(999, &query, &mut state, &config()),
        Ok(FocusAction::Done)
    );
    assert!(state.is_focus_synced);
    assert!(state.pending_sync.needs_focused_effect_update);

    let mut nothing = wm_state(Vec::new());
    assert_eq!(
        handle_window_focused(999, &query, &mut nothing, &config()),
        Err(WmError::NoFocusedContainer)
    );
}

#[test]
fn minimized_window_is_restored_by_focus() {
    let mut state = two_monitors();
    assert_eq!(restore_focused_window(50, &mut state, &config()), None);
    assert_eq!(restore_focused_window(999, &mut state, &config()), None);

    edit_window(&mut state, 50, |window| {
        window.state = WindowState::Minimized;
        window.is_minimized = true;
    });
    assert_eq!(
        restore_focused_window(50, &mut state, &config()),
        Some((50, WindowState::Tiling))
    );
    assert!(!read_window(&state, 50, |window| window.is_minimized));

    let fullscreen =
        WindowState::Fullscreen(FullscreenStateConfig { maximized: true, shown_on_top: false });
    edit_window(&mut state, 50, |window| window.prev_state = Some(fullscreen));
    assert_eq!(restore_focused_window(50, &mut state, &config()), Some((50, fullscreen)));

    let mut floating = config();
    floating.value.window_behavior.initial_state = InitialWindowState::Floating;
    edit_window(&mut state, 50, |window| window.prev_state = None);
    assert_eq!(
        restore_focused_window(50, &mut state, &floating),
        Some((
            50,
            WindowState::Floating(FloatingStateConfig { centered: true, shown_on_top: false })
        ))
    );
}

#[test]
fn unknown_windows_are_managed_on_focus() {
    let mut state = two_monitors();
    state.ignored_windows.push(77);

    assert!(!manage_focused_window(50, &state));
    assert!(!manage_focused_window(77, &state));
    assert!(manage_focused_window(78, &state));

    assert!(has_stale_cloak(Some(true), Some(true)));
    assert!(!has_stale_cloak(Some(true), Some(false)));
    assert!(!has_stale_cloak(Some(false), Some(true)));
    assert!(!has_stale_cloak(None, Some(true)));
    assert!(!has_stale_cloak(Some(true), None));
}

fn hidden_query() -> HiddenQuery {
    HiddenQuery { is_visible: false, is_shell_cloaked: false, on_current_desktop: Vec::new() }
}

#[test]
fn hiding_window_becomes_hidden() {
    let mut state = two_monitors();
    edit_window(&mut state, 50, |window| window.display_state = DisplayState::Hiding);

    let action = handle_window_hidden(50, &hidden_query(), &mut state, &config());

    assert_eq!(action, HiddenAction::Keep);
    assert_eq!(read_window(&state, 50, |window| window.display_state), DisplayState::Hidden);
}

#[test]
fn shown_window_is_unmanaged_when_hidden() {
    let mut state = two_monitors();

    assert_eq!(
        handle_window_hidden(50, &hidden_query(), &mut state, &config()),
        HiddenAction::Unmanage(50)
    );

    // The window isn't actually hidden.
    let visible = HiddenQuery { is_visible: true, ..hidden_query() };
    assert_eq!(handle_window_hidden(50, &visible, &mut state, &config()), HiddenAction::Keep);

    assert_eq!(
        handle_window_hidden(999, &hidden_query(), &mut state, &config()),
        HiddenAction::Keep
    );
}

#[test]
fn windows_placed_in_the_corner_are_unmanaged_in_any_state() {
    let mut corner = config();
    corner.value.general.hide_method = HideMethod::PlaceInCorner;
    let mut state = two_monitors();
    edit_window(&mut state, 50, |window| window.display_state = DisplayState::Hiding);

    assert_eq!(
        handle_window_hidden(50, &hidden_query(), &mut state, &corner),
        HiddenAction::Unmanage(50)
    );
}

#[test]
fn desktop_switch_keeps_windows_managed() {
    let mut state = two_monitors();
    let switched = HiddenQuery { is_shell_cloaked: true, ..hidden_query() };
    assert_eq!(handle_window_hidden(50, &switched, &mut state, &config()), HiddenAction::Keep);

    // The other window stays on the current desktop, so only this one was moved away.
    let moved = HiddenQuery {
        is_shell_cloaked: true,
        on_current_desktop: vec![51],
        ..hidden_query()
    };
    assert_eq!(
        handle_window_hidden(50, &moved, &mut state, &config()),
        HiddenAction::Unmanage(50)
    );

    let itself = HiddenQuery {
        is_shell_cloaked: true,
        on_current_desktop: vec![50],
        ..hidden_query()
    };
    assert_eq!(handle_window_hidden(50, &itself, &mut state, &config()), HiddenAction::Keep);
}

fn moved_to(x: i32) -> MouseEvent {
    MouseEvent::Move { pressed_buttons: Vec::new(), position: Point { x, y: 100 } }
}

fn below(window_below_cursor: Option<isize>) -> MouseQuery {
    MouseQuery { window_below_cursor, in_move_size_loop: Vec::new() }
}

#[test]
fn focus_follows_the_cursor() {
    let mut state = two_monitors();

    assert_eq!(
        handle_mouse_move(&moved_to(1500), &below(Some(51)), &mut state, &config()),
        Ok(Vec::new())
    );
    assert_eq!(state.focused_container(), Some(ContainerRef::Window(51)));
    assert!(state.pending_sync.needs_focus_update);

    // No managed window is under the cursor, so the monitor is focused.
    assert_eq!(
        handle_mouse_move(&moved_to(500), &below(Some(999)), &mut state, &config()),
        Ok(Vec::new())
    );
    assert_eq!(state.focus_order, vec![1, 2]);
}

#[test]
fn cursor_is_not_followed_while_dragging_paused_or_out_of_sync() {
    let pressed = MouseEvent::Move {
        pressed_buttons: vec![MouseButton::Right],
        position: Point { x: 1500, y: 100 },
    };
    let mut state = two_monitors();
    assert!(!needs_window_below_cursor(&pressed, &state, &config()));
    assert!(needs_window_below_cursor(&moved_to(1500), &state, &config()));
    assert_eq!(
        handle_mouse_move(&pressed, &below(Some(51)), &mut state, &config()),
        Ok(Vec::new())
    );

    let mut disabled = config();
    disabled.value.general.focus_follows_cursor = false;
    assert!(handle_mouse_move(&moved_to(1500), &below(Some(51)), &mut state, &disabled).is_ok());

    state.is_focus_synced = false;
    assert!(handle_mouse_move(&moved_to(1500), &below(Some(51)), &mut state, &config()).is_ok());

    state.is_focus_synced = true;
    state.is_paused = true;
    assert!(handle_mouse_move(&moved_to(1500), &below(Some(51)), &mut state, &config()).is_ok());
    assert!(!needs_window_below_cursor(&moved_to(1500), &state, &config()));

    assert_eq!(state.focused_container(), Some(ContainerRef::Window(50)));
}

#[test]
fn cursor_has_to_be_on_a_monitor() {
    let mut state = two_monitors();
    assert_eq!(
        handle_mouse_move(&moved_to(-5), &below(None), &mut state, &config()),
        Err(WmError::NoMonitorAtCursor)
    );

    state.focus_order.clear();
    assert_eq!(
        handle_mouse_move(&moved_to(500), &below(None), &mut state, &config()),
        Err(WmError::NoFocusedContainer)
    );
    assert_eq!(
        handle_mouse_move(&moved_to(500), &below(Some(50)), &mut state, &config()),
        Err(WmError::NoFocusedContainer)
    );
}

#[test]
fn release_of_left_click_ends_drags_from_managing() {
    let up = |button| MouseEvent::ButtonUp { button, position: Point { x: 0, y: 0 } };
    let mut state = two_monitors();
    edit_window(&mut state, 50, |window| window.active_drag = drag(false, true));
    edit_window(&mut state, 51, |window| window.active_drag = drag(false, false));

    assert_eq!(
        handle_mouse_move(&up(MouseButton::Left), &below(None), &mut state, &config()),
        Ok(vec![50])
    );
    assert_eq!(
        handle_mouse_move(&up(MouseButton::Right), &below(None), &mut state, &config()),
        Ok(Vec::new())
    );

    let in_loop = MouseQuery { window_below_cursor: None, in_move_size_loop: vec![50] };
    assert_eq!(
        handle_mouse_move(&up(MouseButton::Left), &in_loop, &mut state, &config()),
        Ok(Vec::new())
    );
}

#[test]
fn windows_of_regular_workspaces_can_be_focused() {
    let state = two_monitors();

    assert!(can_focus_window(50, &state, &config()));
    assert!(can_focus_window(999, &state, &config()));
}

#[test]
fn only_hidden_windows_lead_to_another_workspace() {
    let mut config = config();
    config.value.general.toggle_workspace_on_refocus = true;
    let mut state = wm_state(vec![monitor(1, 0)]);
    state.attach_workspace(0, regular(10, "a"));
    state.attach_workspace(0, regular(11, "a"));
    state.recent_workspace_name = Some("a".to_string());
    add_window(&mut state, 50, 11);

    // The window is shown, so that focusing it doesn't focus a workspace by its name.
    assert!(can_focus_window(50, &state, &config));
}

#[test]
fn frame_is_updated_before_a_drag_ends() {
    let mut state = two_monitors();
    let frame = Rect::from_xy(5, 6, 70, 80);

    update_frame(51, frame, &mut state);

    assert_eq!(read_window(&state, 51, |window| window.frame), frame);
    assert_eq!(read_window(&state, 50, |window| window.frame), Rect::from_xy(0, 0, 500, 800));
    assert_eq!(state.native_windows(), vec![51, 50]);
    assert_eq!(state.native_window(51), Some(51));
    assert_eq!(state.native_window(52), None);
}

#[test]
fn new_state_is_empty() {
    let state = WmState::new();

    assert_eq!(state.focused_container(), None);
    assert!(state.workspaces().is_empty());
    assert!(state.native_windows().is_empty());
}
