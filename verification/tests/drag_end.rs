use glazewm::active_drag::{ActiveDrag, ActiveDragOperation};
use glazewm::config::{
    FloatingStateConfig, FullscreenStateConfig, GeneralConfig, HideMethod, InitialWindowState,
    ParsedConfig, WindowBehaviorConfig, WindowState, WindowStateDefaultsConfig,
};
use glazewm::container::{DisplayState, InsertionTarget, Node, NodeContent, Window};
use glazewm::geometry::{Point, Rect, TilingDirection};
use glazewm::handle_window_moved_or_resized_end::{
    drop_as_tiling_window, drop_position, find_drop_target, finish_drag,
    handle_window_moved_or_resized_end, insert_dropped_window, insert_next_to, DragEndAction,
    DragEndQuery, DropPlan, DropPosition, DropTarget, InsertPlan, WindowDrop,
};
use glazewm::monitor::Monitor;
use glazewm::pending_sync::PendingSync;
use glazewm::user_config::UserConfig;
use glazewm::wm_error::WmError;
use glazewm::wm_state::WmState;
use glazewm::workspace::Workspace;
use glazewm::workspace_config::{MonitorSelector, WorkspaceConfig};

fn workspace_config(name: &str, monitors: Option<MonitorSelector>) -> WorkspaceConfig {
    WorkspaceConfig {
        name: name.to_string(),
        display_name: None,
        bind_to_monitor: None,
        keep_alive: false,
        monitors,
        spanning_group: None,
        spanning_page: 0,
    }
}

fn user_config(workspaces: Vec<WorkspaceConfig>) -> UserConfig {
    UserConfig::new(
        String::new(),
        ParsedConfig {
            general: GeneralConfig {
                toggle_workspace_on_refocus: false,
                focus_follows_cursor: true,
                hide_method: HideMethod::Cloak,
            },
            window_behavior: WindowBehaviorConfig {
                initial_state: InitialWindowState::Tiling,
                state_defaults: WindowStateDefaultsConfig {
                    floating: FloatingStateConfig { centered: true, shown_on_top: false },
                    fullscreen: FullscreenStateConfig { maximized: false, shown_on_top: true },
                },
            },
            window_rules: Vec::new(),
            workspaces,
            keybindings: Vec::new(),
        },
        String::new(),
    )
}

/// A 1000x800 monitor at the given index, without workspaces.
fn monitor(id: u128, index: i32) -> Monitor {
    Monitor {
        id,
        device_name: format!("DISPLAY{id}"),
        device_path: None,
        bounds: Rect::from_xy(1000 * index, 0, 1000, 800),
        workspace_area: Rect::from_xy(1000 * index, 0, 1000, 800),
        workspaces: Vec::new(),
        focus_order: Vec::new(),
    }
}

/// A state with the given monitors, the first of them focused.
fn wm_state(monitors: Vec<Monitor>) -> WmState {
    WmState {
        focus_order: monitors.iter().map(|monitor| monitor.id).collect(),
        monitors,
        nodes: Vec::new(),
        window_focus_order: Vec::new(),
        recent_workspace_name: None,
        is_focus_synced: true,
        is_paused: false,
        ignored_windows: Vec::new(),
        pending_sync: PendingSync::new(),
        events: Vec::new(),
        next_id: 1000,
    }
}

/// A regular workspace.
fn regular(id: u128, name: &str) -> Workspace {
    Workspace::new(id, workspace_config(name, None), TilingDirection::Horizontal)
}

fn window_node(id: u128, workspace: u128, state: WindowState) -> Node {
    Node {
        id,
        workspace,
        parent: None,
        area: Rect::from_xy(0, 0, 500, 800),
        content: NodeContent::Window(Window {
            native: id as isize,
            title: "title".to_string(),
            class_name: "class".to_string(),
            process_name: "process".to_string(),
            frame: Rect::from_xy(0, 0, 500, 800),
            is_minimized: false,
            is_maximized: false,
            state,
            prev_state: None,
            display_state: DisplayState::Shown,
            active_drag: None,
            floating_placement: Rect::from_xy(10, 10, 200, 100),
            insertion_target: None,
            has_pending_dpi_adjustment: false,
            done_window_rules: Vec::new(),
        }),
    }
}

fn config() -> UserConfig {
    user_config(vec![workspace_config("a", None)])
}

fn drag(is_from_floating: bool) -> Option<ActiveDrag> {
    Some(ActiveDrag {
        operation: Some(ActiveDragOperation::Move),
        is_from_floating,
        initial_position: Rect::from_xy(0, 0, 500, 800),
        is_from_manage: false,
    })
}

fn floating() -> WindowState {
    WindowState::Floating(FloatingStateConfig { centered: true, shown_on_top: false })
}

fn query(is_maximized: Option<bool>, should_fullscreen: bool) -> DragEndQuery {
    DragEndQuery { is_maximized, nearest_monitor: Some(0), should_fullscreen }
}

/// A monitor that displays a workspace with one dragged window.
fn dragged(window_state: WindowState, is_from_floating: bool) -> WmState {
    let mut state = wm_state(vec![monitor(1, 0)]);
    state.attach_workspace(0, regular(10, "a"));
    let mut node = window_node(50, 10, window_state);
    if let NodeContent::Window(window) = &mut node.content {
        window.active_drag = drag(is_from_floating);
    }
    state.nodes.push(node);
    state.window_focus_order.push(50);
    state
}

fn window_of(state: &WmState) -> &Window {
    match &state.nodes[0].content {
        NodeContent::Window(window) => window,
        NodeContent::Split { .. } => panic!("Node should be a window."),
    }
}

#[test]
fn tiling_window_is_resized_to_its_frame() {
    let mut state = dragged(WindowState::Tiling, false);

    let action =
        handle_window_moved_or_resized_end(50, &query(None, false), &mut state, &config())
            .expect("Drag should end.");
    assert_eq!(action, DragEndAction::Resize { window: 50, width: 500, height: 800 });

    finish_drag(&action, &mut state);
    assert_eq!(window_of(&state).active_drag, None);
    assert!(state.pending_sync.containers_to_redraw.contains(&50));
}

#[test]
fn maximized_window_becomes_fullscreen_without_a_redraw() {
    let mut state = dragged(floating(), false);
    state.pending_sync.queue_container_to_redraw(50);

    let action =
        handle_window_moved_or_resized_end(50, &query(Some(true), false), &mut state, &config())
            .expect("Drag should end.");
    assert_eq!(
        action,
        DragEndAction::SetFullscreen {
            window: 50,
            state: FullscreenStateConfig { maximized: true, shown_on_top: true },
        }
    );
    assert!(window_of(&state).is_maximized);

    finish_drag(&action, &mut state);
    assert!(!state.pending_sync.containers_to_redraw.contains(&50));
    assert_eq!(window_of(&state).active_drag, None);
}

#[test]
fn fullscreen_window_keeps_its_own_settings() {
    let fullscreen =
        WindowState::Fullscreen(FullscreenStateConfig { maximized: true, shown_on_top: false });
    let mut state = dragged(fullscreen, false);

    let action =
        handle_window_moved_or_resized_end(50, &query(Some(false), true), &mut state, &config())
            .expect("Drag should end.");
    assert_eq!(
        action,
        DragEndAction::SetFullscreen {
            window: 50,
            state: FullscreenStateConfig { maximized: false, shown_on_top: false },
        }
    );

    finish_drag(&action, &mut state);
    assert!(state.pending_sync.containers_to_redraw.contains(&50));
}

#[test]
fn floating_window_stays_floating_and_temporary_one_is_dropped() {
    let mut state = dragged(floating(), true);
    let action =
        handle_window_moved_or_resized_end(50, &query(Some(false), false), &mut state, &config())
            .expect("Drag should end.");
    assert_eq!(
        action,
        DragEndAction::MoveFloating {
            window: 50,
            frame: Rect::from_xy(0, 0, 500, 800),
            monitor: 0,
        }
    );
    finish_drag(&action, &mut state);
    assert_eq!(window_of(&state).active_drag, None);

    let mut state = dragged(floating(), false);
    let action =
        handle_window_moved_or_resized_end(50, &query(Some(false), false), &mut state, &config())
            .expect("Drag should end.");
    assert_eq!(action, DragEndAction::DropAsTiling { window: 50 });
    finish_drag(&action, &mut state);
    assert_eq!(window_of(&state).active_drag, None);
}

#[test]
fn drag_end_is_ignored_without_a_drag_or_an_answer() {
    let mut state = dragged(floating(), false);
    assert_eq!(
        handle_window_moved_or_resized_end(50, &query(None, false), &mut state, &config()),
        Ok(DragEndAction::Ignore)
    );
    assert_eq!(
        handle_window_moved_or_resized_end(99, &query(Some(true), false), &mut state, &config()),
        Ok(DragEndAction::Ignore)
    );
    finish_drag(&DragEndAction::Ignore, &mut state);
    assert!(window_of(&state).active_drag.is_some());

    if let NodeContent::Window(window) = &mut state.nodes[0].content {
        window.active_drag = None;
    }
    assert_eq!(
        handle_window_moved_or_resized_end(50, &query(Some(true), false), &mut state, &config()),
        Ok(DragEndAction::Ignore)
    );
}

#[test]
fn drag_end_needs_a_monitor_with_a_workspace() {
    let mut state = dragged(floating(), false);
    let nowhere =
        DragEndQuery { is_maximized: Some(true), nearest_monitor: None, should_fullscreen: false };
    assert_eq!(
        handle_window_moved_or_resized_end(50, &nowhere, &mut state, &config()),
        Err(WmError::NoNearestMonitor)
    );
    assert!(window_of(&state).is_maximized);

    state.monitors.push(monitor(2, 1));
    let empty = DragEndQuery { nearest_monitor: Some(1), ..nowhere };
    assert_eq!(
        handle_window_moved_or_resized_end(50, &empty, &mut state, &config()),
        Err(WmError::NoDisplayedWorkspace)
    );
}

#[test]
fn drop_position_is_the_nearest_side() {
    let rect = Rect::from_xy(0, 0, 100, 100);
    let at = |x, y| drop_position(&Point { x, y }, &rect);

    assert_eq!(at(50, 10), DropPosition::Top);
    assert_eq!(at(50, 90), DropPosition::Bottom);
    assert_eq!(at(10, 50), DropPosition::Left);
    assert_eq!(at(90, 50), DropPosition::Right);
    // The diagonals belong to the top and bottom, and the center to the top.
    assert_eq!(at(0, 0), DropPosition::Top);
    assert_eq!(at(100, 100), DropPosition::Bottom);
    assert_eq!(at(50, 50), DropPosition::Top);
}

#[test]
fn drop_position_follows_the_diagonals_of_a_wide_or_tall_rect() {
    let wide = Rect::from_xy(0, 0, 200, 100);
    let at = |x, y| drop_position(&Point { x, y }, &wide);
    assert_eq!(at(160, 95), DropPosition::Bottom);
    assert_eq!(at(160, 5), DropPosition::Top);
    assert_eq!(at(160, 70), DropPosition::Right);
    assert_eq!(at(40, 70), DropPosition::Left);
    assert_eq!(at(200, 100), DropPosition::Bottom);
    assert_eq!(at(0, 0), DropPosition::Top);

    let tall = Rect::from_xy(10, 20, 100, 200);
    let at = |x, y| drop_position(&Point { x, y }, &tall);
    assert_eq!(at(105, 180), DropPosition::Right);
    assert_eq!(at(15, 180), DropPosition::Left);
    assert_eq!(at(80, 180), DropPosition::Bottom);
    assert_eq!(at(80, 60), DropPosition::Top);
}

fn tile(id: u128, parent: Option<u128>, area: Rect) -> Node {
    let mut node = window_node(id, 10, WindowState::Tiling);
    node.parent = parent;
    node.area = area;
    node
}

fn split(id: u128, parent: Option<u128>, area: Rect, tiling_direction: TilingDirection) -> Node {
    Node { id, workspace: 10, parent, area, content: NodeContent::Split { tiling_direction } }
}

/// A workspace with a tile on the left, and a split container with two stacked tiles on the
/// right.
fn layout() -> WmState {
    let mut state = wm_state(vec![monitor(1, 0)]);
    state.attach_workspace(0, regular(10, "a"));
    state.nodes = vec![
        tile(50, None, Rect::from_xy(0, 0, 500, 800)),
        split(51, None, Rect::from_xy(500, 0, 500, 800), TilingDirection::Vertical),
        tile(52, Some(51), Rect::from_xy(500, 0, 500, 400)),
        tile(53, Some(51), Rect::from_xy(500, 400, 500, 400)),
        window_node(54, 10, floating()),
    ];
    state
}

fn target(container: u128, position: DropPosition) -> Option<DropTarget> {
    Some(DropTarget { container, position })
}

#[test]
fn drop_target_is_in_the_deepest_container() {
    let state = layout();

    assert_eq!(
        find_drop_target(10, &Point { x: 750, y: 790 }, 54, &state),
        target(53, DropPosition::Bottom)
    );
    assert_eq!(
        find_drop_target(10, &Point { x: 20, y: 400 }, 54, &state),
        target(50, DropPosition::Left)
    );
    // The moved window itself is never a target.
    assert_eq!(
        find_drop_target(10, &Point { x: 750, y: 790 }, 53, &state),
        target(52, DropPosition::Bottom)
    );
    // Equally near containers: the last one is taken.
    assert_eq!(
        find_drop_target(10, &Point { x: 750, y: 400 }, 54, &state),
        target(53, DropPosition::Top)
    );
    assert_eq!(find_drop_target(11, &Point { x: 0, y: 0 }, 54, &state), None);
}

#[test]
fn parallel_drop_inserts_a_sibling_and_perpendicular_one_splits() {
    let state = layout();

    assert_eq!(
        insert_next_to(3, TilingDirection::Vertical, DropPosition::Bottom, &state),
        InsertPlan::Sibling { parent: Some(51), index: 2 }
    );
    assert_eq!(
        insert_next_to(3, TilingDirection::Vertical, DropPosition::Top, &state),
        InsertPlan::Sibling { parent: Some(51), index: 1 }
    );
    assert_eq!(
        insert_next_to(3, TilingDirection::Vertical, DropPosition::Left, &state),
        InsertPlan::Split {
            wrapped: 53,
            tiling_direction: TilingDirection::Horizontal,
            index: 0,
        }
    );
    assert_eq!(
        insert_next_to(0, TilingDirection::Horizontal, DropPosition::Bottom, &state),
        InsertPlan::Split { wrapped: 50, tiling_direction: TilingDirection::Vertical, index: 1 }
    );
    // Split containers aren't wrapped.
    assert_eq!(
        insert_next_to(1, TilingDirection::Horizontal, DropPosition::Bottom, &state),
        InsertPlan::Sibling { parent: None, index: 2 }
    );
}

/// Drop of a window next to a container of the workspace.
fn window_drop(container: u128, position: DropPosition) -> WindowDrop {
    WindowDrop { window: 54, workspace: 10, target: DropTarget { container, position } }
}

#[test]
fn window_is_dropped_next_to_the_nearest_container() {
    let mut state = layout();
    let cursor = Point { x: 750, y: 790 };
    let drop = window_drop(53, DropPosition::Bottom);

    assert_eq!(
        drop_as_tiling_window(54, &cursor, &mut state),
        Ok(DropPlan::Retile(drop))
    );
    assert_eq!(
        insert_dropped_window(&drop, &cursor, &mut state),
        Ok(Some(InsertPlan::Sibling { parent: Some(51), index: 2 }))
    );
    assert!(state.pending_sync.containers_to_redraw.contains(&51));
}

#[test]
fn drop_target_is_found_anew_if_it_is_gone() {
    let mut state = layout();
    let cursor = Point { x: 750, y: 790 };
    let drop = window_drop(53, DropPosition::Bottom);

    state.nodes.remove(3);
    assert_eq!(
        insert_dropped_window(&drop, &cursor, &mut state),
        Ok(Some(InsertPlan::Sibling { parent: Some(51), index: 1 }))
    );

    state.nodes.truncate(0);
    assert_eq!(insert_dropped_window(&drop, &cursor, &mut state), Ok(None));
}

/// Insertion target of the window at a position.
fn insertion_target(state: &WmState, at: usize) -> Option<InsertionTarget> {
    match &state.nodes[at].content {
        NodeContent::Window(window) => window.insertion_target,
        NodeContent::Split { .. } => None,
    }
}

/// A window that remembers where it was in the tree.
fn remembering(id: u128, workspace: u128) -> Node {
    let mut node = window_node(id, workspace, floating());
    if let NodeContent::Window(window) = &mut node.content {
        window.insertion_target = Some(InsertionTarget { target_parent: 51, target_index: 1 });
    }
    node
}

#[test]
fn window_dropped_on_an_empty_workspace_is_added_to_it() {
    let mut state = wm_state(vec![monitor(1, 0), monitor(2, 1)]);
    state.attach_workspace(0, regular(10, "a"));
    state.attach_workspace(1, regular(11, "b"));
    state.nodes.push(remembering(54, 10));
    let cursor = Point { x: 1500, y: 10 };

    assert_eq!(
        drop_as_tiling_window(54, &cursor, &mut state),
        Ok(DropPlan::AddToWorkspace { workspace: 11 })
    );
    // The window isn't to go back to where it was.
    assert_eq!(insertion_target(&state, 0), None);

    // Off all monitors, the window's own workspace is taken.
    let away = Point { x: -50, y: 10 };
    assert_eq!(
        drop_as_tiling_window(54, &away, &mut state),
        Ok(DropPlan::AddToWorkspace { workspace: 10 })
    );
    assert_eq!(
        drop_as_tiling_window(99, &away, &mut state),
        Err(WmError::NoDropWorkspace)
    );
}

#[test]
fn insertion_target_stays_where_there_is_something_to_drop_next_to() {
    let mut state = layout();
    state.nodes[4] = remembering(54, 10);

    assert_eq!(
        drop_as_tiling_window(54, &Point { x: 750, y: 790 }, &mut state),
        Ok(DropPlan::Retile(window_drop(53, DropPosition::Bottom)))
    );
    assert_eq!(
        insertion_target(&state, 4),
        Some(InsertionTarget { target_parent: 51, target_index: 1 })
    );
}

#[test]
fn drop_needs_a_container_to_insert_into() {
    let mut state = layout();
    state.nodes.remove(1);
    let drop = window_drop(53, DropPosition::Bottom);

    assert_eq!(
        insert_dropped_window(&drop, &Point { x: 750, y: 790 }, &mut state),
        Err(WmError::NoDropParent)
    );
}
