//! Windows that received native focus.
use vstd::prelude::*;

use crate::config::{WindowBehaviorConfig, WindowState};
use crate::container::{
    find_native, find_node, has_nodes, native_position, node_position, nodes_view, ContainerRef,
    DisplayState, Node, NodeContent, NodeContentView, WindowView,
};
use crate::focus_spanning_workspace::page_cost;
use crate::focus_workspace::{
    can_focus_target, focus_workspace, focus_workspace_instance, instance_focused, is_focusable,
    target_focused, WorkspaceTarget, WorkspaceTargetView,
};
use crate::handle_window_hidden::contains_native;
use crate::invariants::{
    keeps, lemma_focus_keeps, lemma_keeps_itself, lemma_keeps_more, lemma_keeps_transitive,
    lemma_kept, lemma_kept_valid, lemma_unrelated_keeps, placements_fit, same_node, takes_focus,
};
use crate::user_config::UserConfig;
use crate::wm_error::{outcome, WmError, WmErrorView};
use crate::wm_event::{WmEvent, WmEventView};
use crate::wm_state::{StateView, WmState};
use crate::workspace_config::WorkspaceConfigView;

verus! {

/// What the platform knows when a native window received focus.
#[derive(Clone, Copy, Debug, PartialEq, Eq, Structural)]
pub struct FocusQuery {
    /// Whether the native window is the desktop.
    pub is_desktop_window: bool,
    /// Milliseconds since a window was last unmanaged or minimized.
    pub since_unmanage: Option<u128>,
}

/// What is left to do for a native window that received focus.
#[derive(Clone, Copy, Debug, PartialEq, Eq, Structural)]
pub enum FocusAction {
    Done,
    /// Run the window's rules for focus events. `finish_window_focus` is to be called once they
    /// are run.
    RunRules { window: u128, workspace: u128 },
}

/// Whether focus goes back to the focused container: shortly after a window was unmanaged or
/// minimized, while native focus is elsewhere.
pub open spec fn overrides_focus(since_unmanage: Option<u128>, is_focus_synced: bool) -> bool {
    since_unmanage is Some && since_unmanage->0 < 100 && !is_focus_synced
}

/// Returns true if focus should be reassigned to the WM's focus container.
fn should_override_focus(since_unmanage: Option<u128>, state: &WmState) -> (overrides: bool)
    ensures
        overrides == overrides_focus(since_unmanage, state@.is_focus_synced),
{
    let has_recent_unmanage = match since_unmanage {
        Some(elapsed) => elapsed < 100,
        None => false,
    };
    has_recent_unmanage && !state.is_focus_synced
}

/// The state with a focused window not minimized any more, and the state that the window goes
/// back to.
pub open spec fn window_restored(
    state: StateView,
    behavior: WindowBehaviorConfig,
    native: isize,
) -> (StateView, Option<(u128, WindowState)>) {
    match native_position(state.nodes, native, 0) {
        Some(at) => {
            let window = state.nodes[at].window()->0;
            if window.state == WindowState::Minimized {
                (
                    StateView {
                        nodes: state.nodes.update(
                            at,
                            state.nodes[at].with_window(
                                WindowView { is_minimized: false, ..window },
                            ),
                        ),
                        ..state
                    },
                    Some(
                        (
                            state.nodes[at].id,
                            match window.prev_state {
                                Some(prev_state) => prev_state,
                                None => WindowState::spec_default(behavior),
                            },
                        ),
                    ),
                )
            } else {
                (state, None)
            }
        },
        None => (state, None),
    }
}

fn clear_is_minimized(nodes: &mut Vec<Node>, at: usize)
    requires
        at < old(nodes)@.len(),
        old(nodes)@[at as int]@.window() is Some,
    ensures
        nodes_view(final(nodes)@) == nodes_view(old(nodes)@).update(
            at as int,
            old(nodes)@[at as int]@.with_window(
                WindowView { is_minimized: false, ..old(nodes)@[at as int]@.window()->0 },
            ),
        ),
{
    match &mut nodes[at].content {
        NodeContent::Window(window) => {
            window.is_minimized = false;
        },
        NodeContent::Split { .. } => {},
    }
    assert(nodes_view(nodes@) =~= nodes_view(old(nodes)@).update(
        at as int,
        old(nodes)@[at as int]@.with_window(
            WindowView { is_minimized: false, ..old(nodes)@[at as int]@.window()->0 },
        ),
    ));
}

/// Transitions a window that the WM has as minimized back to its previous state, after the OS
/// has given it focus. Returns the window and the state to update it to.
///
/// The OS restores a minimized window when it's focused (e.g. by clicking its taskbar button),
/// but the event for the end of that restore can arrive after the focus event, and its handler
/// can read the window as still minimized while the restore is in flight. Either way the WM
/// would be left with the window as minimized and minimize it again on its next redraw, so
/// whether the native window is minimized is deliberately not consulted here: a window that has
/// focus is never minimized.
pub fn restore_focused_window(
    native_window: isize,
    state: &mut WmState,
    config: &UserConfig,
) -> (target: Option<(u128, WindowState)>)
    ensures
        final(state)@ == window_restored(
            old(state)@,
            config.value.window_behavior,
            native_window,
        ).0,
        target == window_restored(old(state)@, config.value.window_behavior, native_window).1,
        old(state)@.is_valid() ==> final(state)@.is_valid(),
{
    let at = match find_native(&state.nodes, native_window) {
        Some(at) => at,
        None => {
            return None;
        },
    };
    assert(state@.nodes[at as int] == state.nodes@[at as int]@);
    let id = state.nodes[at].id;
    let (window_state, prev_state) = match &state.nodes[at].content {
        NodeContent::Window(window) => (window.state, window.prev_state),
        NodeContent::Split { .. } => {
            return None;
        },
    };
    if window_state != WindowState::Minimized {
        return None;
    }
    clear_is_minimized(&mut state.nodes, at);
    proof {
        let before = old(state)@;
        if before.is_valid() {
            crate::invariants::lemma_window_change_stays_valid(
                before,
                at as int,
                WindowView { is_minimized: false, ..before.nodes[at as int].window()->0 },
            );
        }
    }
    let target_state = match prev_state {
        Some(prev_state) => prev_state,
        None => WindowState::default_from_config(&config.value.window_behavior),
    };
    Some((id, target_state))
}

/// Whether a native window is neither managed nor ignored.
pub open spec fn is_unknown(state: StateView, native: isize) -> bool {
    native_position(state.nodes, native, 0) is None && !state.ignored_windows.contains(native)
}

/// Whether a window that received focus is to be managed.
///
/// Windows are normally managed when they're shown, or on startup if they're already visible. A
/// window that is cloaked at that point is skipped as invisible. That's correct for windows on
/// another native virtual desktop, which are managed once a desktop switch uncloaks them, but a
/// cloak left behind by a previous WM instance that exited without restoring its hidden windows
/// is never lifted by the OS. Such a window stays invisible even though the OS focuses it (e.g.
/// when its taskbar button is clicked), so it's managed on focus, after lifting the stale cloak.
///
/// Managing on focus is limited by the same checks as managing on show, so windows that aren't
/// manageable (e.g. the taskbar) are unaffected.
pub fn manage_focused_window(native_window: isize, state: &WmState) -> (manage: bool)
    ensures
        manage == is_unknown(state@, native_window),
{
    find_native(&state.nodes, native_window).is_none() && !contains_native(
        &state.ignored_windows,
        native_window,
    )
}

/// Whether a focused window has a cloak that a previous WM instance left on it, and which is to
/// be lifted. What can't be determined is given as `None`.
///
/// A focused window on the current native virtual desktop can't legitimately be shell-cloaked,
/// so its cloak is stale. Windows on another virtual desktop are left alone, since the desktop
/// switch that follows uncloaks them.
pub fn has_stale_cloak(
    is_shell_cloaked: Option<bool>,
    is_on_current_virtual_desktop: Option<bool>,
) -> (stale: bool)
    ensures
        stale == (is_shell_cloaked == Some(true) && is_on_current_virtual_desktop == Some(true)),
{
    match (is_shell_cloaked, is_on_current_virtual_desktop) {
        (Some(is_cloaked), Some(is_current)) => is_cloaked && is_current,
        _ => false,
    }
}

/// Whether native focus is on the focused container.
pub open spec fn is_synced_to(
    state: StateView,
    focused: ContainerRef,
    native: isize,
    is_desktop_window: bool,
) -> bool {
    match focused {
        ContainerRef::Window(id) => match node_position(state.nodes, id, 0) {
            Some(at) => match state.nodes[at].window() {
                Some(window) => window.native == native,
                None => false,
            },
            None => false,
        },
        _ => is_desktop_window,
    }
}

/// The state with the workspace of an off-screen window displayed. An instance of a spanning
/// workspace is displayed by itself; naming it would select a page instead.
pub open spec fn off_screen_focused(
    state: StateView,
    configs: Seq<WorkspaceConfigView>,
    toggles: bool,
    workspace: u128,
) -> (StateView, Result<(), WmErrorView>) {
    match state.locate(workspace) {
        None => (state, Err(WmErrorView::Detached)),
        Some(place) => if state.workspace(place).config.spanning_group is Some {
            instance_focused(state, workspace)
        } else {
            target_focused(
                state,
                configs,
                toggles,
                WorkspaceTargetView::Name(state.workspace(place).config.name),
            )
        },
    }
}

/// The state after a managed window received manual focus, and what is left to do.
pub open spec fn manually_focused(
    state: StateView,
    configs: Seq<WorkspaceConfigView>,
    toggles: bool,
    at: int,
) -> (StateView, Result<FocusAction, WmErrorView>) {
    let node = state.nodes[at];
    let action = FocusAction::RunRules { window: node.id, workspace: node.workspace };
    let container = ContainerRef::Window(node.id);
    if node.window()->0.display_state == DisplayState::Hidden {
        let (shown, result) = off_screen_focused(state, configs, toggles, node.workspace);
        match result {
            Ok(_) => (shown.focus(container), Ok(action)),
            Err(error) => (shown, Err(error)),
        }
    } else {
        (state.focus(container), Ok(action))
    }
}

/// The state after a native window received focus, and what is left to do.
pub open spec fn window_focused(
    state: StateView,
    configs: Seq<WorkspaceConfigView>,
    toggles: bool,
    native: isize,
    query: FocusQuery,
) -> (StateView, Result<FocusAction, WmErrorView>) {
    match state.focused_container() {
        None => (state, Err(WmErrorView::NoFocusedContainer)),
        Some(focused) => {
            let checked = StateView {
                is_focus_synced: is_synced_to(state, focused, native, query.is_desktop_window),
                ..state
            };
            let effect = checked.sync(checked.pending_sync.focused_effect_update());
            if overrides_focus(query.since_unmanage, checked.is_focus_synced) {
                (checked.focus_change(), Ok(FocusAction::Done))
            } else {
                match native_position(state.nodes, native, 0) {
                    None => (effect, Ok(FocusAction::Done)),
                    Some(at) => if state.nodes[at].window()->0.display_state
                        == DisplayState::Hiding {
                        (checked, Ok(FocusAction::Done))
                    } else if focused == ContainerRef::Window(state.nodes[at].id) {
                        (
                            StateView {
                                is_focus_synced: true,
                                pending_sync: effect.pending_sync.reorder(
                                    state.nodes[at].workspace,
                                ),
                                ..effect
                            },
                            Ok(FocusAction::Done),
                        )
                    } else {
                        manually_focused(effect, configs, toggles, at)
                    },
                }
            }
        },
    }
}

/// The state after the rules of a focused window were run.
pub open spec fn focus_finished(state: StateView, window: u128, workspace: u128) -> StateView {
    StateView {
        is_focus_synced: true,
        pending_sync: state.pending_sync.reorder(workspace),
        ..state
    }.emit(WmEventView::FocusChanged { focused_container: ContainerRef::Window(window) })
}

fn is_synced(
    focused: &ContainerRef,
    native_window: isize,
    is_desktop_window: bool,
    state: &WmState,
) -> (synced: bool)
    ensures
        synced == is_synced_to(state@, *focused, native_window, is_desktop_window),
{
    match *focused {
        ContainerRef::Window(id) => match find_node(&state.nodes, id) {
            Some(at) => {
                assert(state@.nodes[at as int] == state.nodes@[at as int]@);
                match &state.nodes[at].content {
                    NodeContent::Window(window) => window.native == native_window,
                    NodeContent::Split { .. } => false,
                }
            },
            None => false,
        },
        _ => is_desktop_window,
    }
}

/// Whether the workspace that an off-screen window is on can be focused by its name.
pub open spec fn can_focus_off_screen(
    state: StateView,
    configs: Seq<WorkspaceConfigView>,
    toggles: bool,
    workspace: u128,
) -> bool {
    match state.locate(workspace) {
        None => true,
        Some(place) => state.workspace(place).config.spanning_group is None ==> is_focusable(
            state,
            configs,
            toggles,
            WorkspaceTargetView::Name(state.workspace(place).config.name),
        ),
    }
}

/// Whether the window at a position can be focused. Its workspace is focused along with it only
/// if the window is off-screen.
pub open spec fn can_focus_node(
    state: StateView,
    configs: Seq<WorkspaceConfigView>,
    toggles: bool,
    at: int,
) -> bool {
    state.nodes[at].window()->0.display_state == DisplayState::Hidden ==> can_focus_off_screen(
        state,
        configs,
        toggles,
        state.nodes[at].workspace,
    )
}

/// Whether a window that received focus can be focused even if it is off-screen.
pub fn can_focus_window(native_window: isize, state: &WmState, config: &UserConfig) -> (can: bool)
    ensures
        can == match native_position(state@.nodes, native_window, 0) {
            Some(at) => can_focus_node(
                state@,
                config.value@.workspaces,
                config.value.general.toggle_workspace_on_refocus,
                at,
            ),
            None => true,
        },
{
    let at = match find_native(&state.nodes, native_window) {
        Some(at) => at,
        None => {
            return true;
        },
    };
    assert(state@.nodes[at as int] == state.nodes@[at as int]@);
    let is_hidden = match &state.nodes[at].content {
        NodeContent::Window(window) => window.display_state == DisplayState::Hidden,
        NodeContent::Split { .. } => false,
    };
    if !is_hidden {
        return true;
    }
    match state.locate(state.nodes[at].workspace) {
        Some((monitor, position)) => {
            assert(state@.workspace((monitor as int, position as int))
                == state.monitors@[monitor as int].workspaces@[position as int]@);
            let config_of_workspace = &state.monitors[monitor].workspaces[position].config;
            if config_of_workspace.spanning_group.is_some() {
                true
            } else {
                let target = WorkspaceTarget::Name(config_of_workspace.name.clone());
                can_focus_target(&target, state, config)
            }
        },
        None => true,
    }
}

/// Displays the workspace of an off-screen window. For example, if Discord is forcefully shown
/// by the OS when it's on a hidden workspace, focus switches to Discord's workspace.
fn focus_off_screen(workspace: u128, state: &mut WmState, config: &UserConfig) -> (result: Result<
    (),
    WmError,
>)
    requires
        placements_fit(old(state)@),
        can_focus_off_screen(
            old(state)@,
            config.value@.workspaces,
            config.value.general.toggle_workspace_on_refocus,
            workspace,
        ),
    ensures
        final(state)@ == off_screen_focused(
            old(state)@,
            config.value@.workspaces,
            config.value.general.toggle_workspace_on_refocus,
            workspace,
        ).0,
        outcome(result) == off_screen_focused(
            old(state)@,
            config.value@.workspaces,
            config.value.general.toggle_workspace_on_refocus,
            workspace,
        ).1,
        keeps(old(state)@, final(state)@, page_cost(old(state)@) + 1),
{
    let ghost before = state@;
    proof {
        lemma_keeps_itself(before);
    }
    let (monitor, at) = match state.locate(workspace) {
        Some(place) => place,
        None => {
            return Err(WmError::Detached);
        },
    };
    assert(state@.workspace((monitor as int, at as int))
        == state.monitors@[monitor as int].workspaces@[at as int]@);
    if state.monitors[monitor].workspaces[at].config.spanning_group.is_some() {
        // Display exactly the instance holding the window; resolving its name would select a
        // page instead.
        let result = focus_workspace_instance(workspace, state);
        proof {
            lemma_keeps_more(before, state@, 0, page_cost(before) + 1);
        }
        result
    } else {
        let name = state.monitors[monitor].workspaces[at].config.name.clone();
        focus_workspace(WorkspaceTarget::Name(name), state, config)
    }
}

/// A window still takes focus after its workspace was displayed.
proof fn lemma_window_takes_focus(before: StateView, after: StateView, at: int)
    requires
        before.is_valid(),
        before.next_id + page_cost(before) + 1 <= u128::MAX,
        keeps(before, after, page_cost(before) + 1),
        0 <= at < before.nodes.len(),
        before.nodes[at].window() is Some,
        before.locate(before.nodes[at].workspace) is Some,
    ensures
        after.is_valid(),
        takes_focus(after, ContainerRef::Window(before.nodes[at].id)),
{
    let cost = page_cost(before) + 1;
    let id = before.nodes[at].id;
    let workspace = before.nodes[at].workspace;
    lemma_kept(before, after, cost);
    lemma_kept_valid(before, after, cost);
    assert(same_node(before.nodes[at], after.nodes[at]));
    match (before.nodes[at].content, after.nodes[at].content) {
        (NodeContentView::Window(_), NodeContentView::Window(_)) => {},
        _ => {},
    }
    assert(after.nodes[at].window() is Some);
    assert(after.window_focus_order.contains(after.nodes[at].id));
    let found = node_position(after.nodes, id, 0);
    crate::container::lemma_node_position(after.nodes, id, 0);
    crate::handle_window_moved_or_resized_end::lemma_node_is_found(after.nodes, at, 0);
    assert(found->0 == at) by {
        if found->0 < at {
            assert(after.nodes[found->0].id != after.nodes[at].id);
        } else if at < found->0 {
            assert(after.nodes[at].id != after.nodes[found->0].id);
        }
    }
    assert(has_nodes(before.nodes, workspace));
    assert(after.locate(workspace) is Some);
}

/// Focuses a window that received manual focus, displaying its workspace if it is off-screen.
fn focus_manually(at: usize, state: &mut WmState, config: &UserConfig) -> (result: Result<
    FocusAction,
    WmError,
>)
    requires
        at < old(state).nodes@.len(),
        old(state)@.nodes[at as int].window() is Some,
        placements_fit(old(state)@),
        can_focus_node(
            old(state)@,
            config.value@.workspaces,
            config.value.general.toggle_workspace_on_refocus,
            at as int,
        ),
    ensures
        final(state)@ == manually_focused(
            old(state)@,
            config.value@.workspaces,
            config.value.general.toggle_workspace_on_refocus,
            at as int,
        ).0,
        outcome(result) == manually_focused(
            old(state)@,
            config.value@.workspaces,
            config.value.general.toggle_workspace_on_refocus,
            at as int,
        ).1,
        keeps(old(state)@, final(state)@, page_cost(old(state)@) + 1),
        result matches Ok(FocusAction::RunRules { window, workspace }) ==> has_taken_focus(
            old(state)@,
            final(state)@,
            window,
            workspace,
        ),
{
    let ghost before = state@;
    let ghost cost = page_cost(before) + 1;
    proof {
        lemma_keeps_itself(before);
    }
    assert(state@.nodes[at as int] == state.nodes@[at as int]@);
    let id = state.nodes[at].id;
    let workspace = state.nodes[at].workspace;
    let is_hidden = match &state.nodes[at].content {
        NodeContent::Window(window) => window.display_state == DisplayState::Hidden,
        NodeContent::Split { .. } => false,
    };
    // Handle focus events from windows on hidden workspaces.
    if is_hidden {
        if let Err(error) = focus_off_screen(workspace, state, config) {
            return Err(error);
        }
    }
    // Update the WM's focus state.
    let ghost shown = state@;
    state.set_focused_descendant(ContainerRef::Window(id));
    proof {
        lemma_focus_keeps(shown, ContainerRef::Window(id));
        lemma_keeps_transitive(before, shown, state@, cost, 0);
        if before.is_valid() && before.next_id + cost <= u128::MAX && before.locate(
            workspace,
        ) is Some {
            lemma_window_takes_focus(before, shown, at as int);
            crate::invariants::law_focused_container_has_focus(
                shown,
                ContainerRef::Window(id),
            );
        }
    }
    Ok(FocusAction::RunRules { window: id, workspace })
}

/// Whether a window has focus after it received it natively, if its workspace is there.
pub open spec fn has_taken_focus(
    before: StateView,
    after: StateView,
    window: u128,
    workspace: u128,
) -> bool {
    before.is_valid() && before.next_id + page_cost(before) + 1 <= u128::MAX && before.locate(
        workspace,
    ) is Some ==> after.focused_container() == Some(ContainerRef::Window(window))
}

/// Handles the event for when a native window received focus.
///
/// `restore_focused_window` and `manage_focused_window` have to run before, since they can
/// replace or add the window.
#[verifier::rlimit(60)]
pub fn handle_window_focused(
    native_window: isize,
    query: &FocusQuery,
    state: &mut WmState,
    config: &UserConfig,
) -> (result: Result<FocusAction, WmError>)
    requires
        placements_fit(old(state)@),
        native_position(old(state)@.nodes, native_window, 0) matches Some(at) ==> can_focus_node(
            old(state)@,
            config.value@.workspaces,
            config.value.general.toggle_workspace_on_refocus,
            at,
        ),
    ensures
        final(state)@ == window_focused(
            old(state)@,
            config.value@.workspaces,
            config.value.general.toggle_workspace_on_refocus,
            native_window,
            *query,
        ).0,
        outcome(result) == window_focused(
            old(state)@,
            config.value@.workspaces,
            config.value.general.toggle_workspace_on_refocus,
            native_window,
            *query,
        ).1,
        keeps(old(state)@, final(state)@, page_cost(old(state)@) + 1),
        result matches Ok(FocusAction::RunRules { window, workspace }) ==> has_taken_focus(
            old(state)@,
            final(state)@,
            window,
            workspace,
        ),
{
    let ghost before = state@;
    proof {
        lemma_keeps_itself(before);
    }
    let found_window = find_native(&state.nodes, native_window);
    let focused_container = match state.focused_container() {
        Some(focused_container) => focused_container,
        None => {
            return Err(WmError::NoFocusedContainer);
        },
    };
    // Update the focus sync state. If the OS focused window is not same as the WM's focused
    // container, then the focus is not synced.
    state.is_focus_synced = is_synced(
        &focused_container,
        native_window,
        query.is_desktop_window,
        state,
    );
    // Handle overriding focus on close/minimize. After a window is closed or minimized, the OS
    // or the closed application might automatically switch focus to a different window. To
    // force focus to go to the WM's target focus container, we reassign any focus events 100ms
    // after close/minimize. This will cause focus to briefly flicker to the OS focus target and
    // then to the WM's focus target.
    if should_override_focus(query.since_unmanage, state) {
        state.pending_sync.queue_focus_change();
        proof {
            lemma_unrelated_keeps(before, state@);
            lemma_keeps_more(before, state@, 0, page_cost(before) + 1);
        }
        return Ok(FocusAction::Done);
    }
    let at = match found_window {
        Some(at) => at,
        None => {
            // An ignored window.
            state.pending_sync.queue_focused_effect_update();
            proof {
                lemma_unrelated_keeps(before, state@);
                lemma_keeps_more(before, state@, 0, page_cost(before) + 1);
            }
            return Ok(FocusAction::Done);
        },
    };
    assert(state@.nodes[at as int] == state.nodes@[at as int]@);
    let id = state.nodes[at].id;
    let workspace = state.nodes[at].workspace;
    let display_state = match &state.nodes[at].content {
        NodeContent::Window(window) => window.display_state,
        NodeContent::Split { .. } => DisplayState::Shown,
    };
    // Ignore the focus event if window is being hidden by the WM.
    if display_state == DisplayState::Hiding {
        proof {
            lemma_unrelated_keeps(before, state@);
            lemma_keeps_more(before, state@, 0, page_cost(before) + 1);
        }
        return Ok(FocusAction::Done);
    }
    // Focus effect should be updated for any change in focus that shouldn't be overwritten. The
    // incoming focus event at this point is either:
    // - WM's focus container (window or workspace). This is the desktop window in the case of a
    //   workspace.
    // - An ignored window.
    // - A window that received manual focus.

    state.pending_sync.queue_focused_effect_update();
    // Native focus has been synced to the WM's focused container.
    if focused_container == ContainerRef::Window(id) {
        state.is_focus_synced = true;
        state.pending_sync.queue_workspace_to_reorder(workspace);
        proof {
            lemma_unrelated_keeps(before, state@);
            lemma_keeps_more(before, state@, 0, page_cost(before) + 1);
        }
        return Ok(FocusAction::Done);
    }
    let ghost effect = state@;
    proof {
        lemma_unrelated_keeps(before, effect);
        lemma_kept(before, effect, 0);
    }
    let result = focus_manually(at, state, config);
    proof {
        lemma_keeps_transitive(before, effect, state@, 0, page_cost(before) + 1);
        if before.is_valid() {
            lemma_kept_valid(before, effect, 0);
        }
    }
    result
}

/// Completes the handling of a focused window, once its rules were run.
pub fn finish_window_focus(window: u128, workspace: u128, state: &mut WmState)
    ensures
        final(state)@ == focus_finished(old(state)@, window, workspace),
        keeps(old(state)@, final(state)@, 0),
{
    state.is_focus_synced = true;
    state.pending_sync.queue_workspace_to_reorder(workspace);
    // Broadcast the focus change event.
    state.emit_event(
        WmEvent::FocusChanged { focused_container: ContainerRef::Window(window) },
    );
    proof {
        lemma_unrelated_keeps(old(state)@, state@);
    }
}

} // verus!
