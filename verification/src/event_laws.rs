//! What is done about events of the platform.
use vstd::prelude::*;

use crate::config::{GeneralConfig, HideMethod, WindowBehaviorConfig, WindowState};
use crate::container::{
    native_position, ContainerRef, DisplayState, NodeContentView, NodeView, WindowView,
};
use crate::focus_workspace::{instance_focused, target_focused, WorkspaceTargetView};
use crate::geometry::{Point, Rect};
use crate::handle_mouse_move::{
    cursor_followed, ending_drags, ends_drag, frame_updated, mouse_handled, MouseButton, MouseEvent,
    MouseQuery,
};
use crate::handle_window_focused::{
    focus_finished, is_synced_to, is_unknown, window_focused, window_restored, FocusAction,
    FocusQuery,
};
use crate::handle_window_hidden::{window_hidden, HiddenAction, HiddenQuery};
use crate::ignore_uncontrollable_window::window_ignored;
use crate::pending_sync::PendingSyncView;
use crate::rule_laws::lemma_pushed;
use crate::state_laws::{
    law_first_node_with_an_identifier_is_found, law_first_window_with_a_handle_is_found,
};
use crate::wm_error::WmErrorView;
use crate::wm_event::WmEventView;
use crate::wm_state::{monitor_at, StateView};
use crate::workspace_config::WorkspaceConfigView;

verus! {

/// A window is found by its handle.
proof fn lemma_native_at(nodes: Seq<NodeView>, at: int, from: int)
    requires
        0 <= from <= at < nodes.len(),
        nodes[at].content is Window,
        forall|i: int|
            from <= i < at ==> !((#[trigger] nodes[i]).content is Window
                && nodes[i].content->Window_0.native == nodes[at].content->Window_0.native),
    ensures
        native_position(nodes, nodes[at].content->Window_0.native, from) == Some(at),
    decreases at - from,
{
    if from < at {
        assert(nodes[from].content is Window ==> nodes[from].content->Window_0.native
            != nodes[at].content->Window_0.native);
        lemma_native_at(nodes, at, from + 1);
    }
}

/// Releasing the left mouse button ends the drags of exactly the windows whose drag the WM began
/// when it managed them, and that the platform doesn't move or resize itself.
pub proof fn law_released_button_ends_drags(
    nodes: Seq<NodeView>,
    in_loop: Seq<isize>,
    count: nat,
) -> (origins: Seq<int>)
    requires
        count <= nodes.len(),
    ensures
        origins.len() == ending_drags(nodes, in_loop, count).len(),
        forall|k: int, l: int|
            0 <= k < l < origins.len() ==> (#[trigger] origins[k]) < (#[trigger] origins[l]),
        forall|k: int|
            0 <= k < origins.len() ==> 0 <= #[trigger] origins[k] < count && ending_drags(
                nodes,
                in_loop,
                count,
            )[k] == nodes[origins[k]].id,
        forall|i: int|
            0 <= i < count ==> (#[trigger] origins.contains(i) <==> {
                &&& nodes[i].content is Window
                &&& nodes[i].content->Window_0.active_drag is Some
                &&& nodes[i].content->Window_0.active_drag->0.is_from_manage
                &&& !in_loop.contains(nodes[i].content->Window_0.native)
            }),
    decreases count,
{
    if count == 0 {
        Seq::empty()
    } else {
        let last = count - 1;
        let rest = law_released_button_ends_drags(nodes, in_loop, last as nat);
        let is_ended = match nodes[last].window() {
            Some(window) => ends_drag(window, in_loop),
            None => false,
        };
        if is_ended {
            lemma_pushed(rest, last);
            rest.push(last)
        } else {
            assert(!rest.contains(last));
            rest
        }
    }
}

/// The mouse changes focus only while it moves with no button pressed, if focus is to follow it
/// and is where it should be. It ends drags only when the left button is released. While the WM
/// is paused, it does nothing at all.
pub proof fn law_mouse_acts_only_when_it_should(
    state: StateView,
    general: GeneralConfig,
    event: MouseEvent,
    query: MouseQuery,
)
    ensures
        ({
            let (next, result) = mouse_handled(state, general, event, query);
            &&& state.is_paused ==> next == state && result == Ok::<Seq<u128>, WmErrorView>(
                Seq::empty(),
            )
            &&& event is ButtonDown ==> next == state && result == Ok::<Seq<u128>, WmErrorView>(
                Seq::empty(),
            )
            &&& event matches MouseEvent::ButtonUp { button, .. } ==> {
                &&& next == state
                &&& !state.is_paused && button == MouseButton::Left ==> result == Ok::<
                    Seq<u128>,
                    WmErrorView,
                >(ending_drags(state.nodes, query.in_move_size_loop@, state.nodes.len()))
                &&& button == MouseButton::Right ==> result == Ok::<Seq<u128>, WmErrorView>(
                    Seq::empty(),
                )
            }
            &&& event matches MouseEvent::Move { pressed_buttons, position } ==> {
                let follows = !state.is_paused && !pressed_buttons@.contains(MouseButton::Left)
                    && !pressed_buttons@.contains(MouseButton::Right) && state.is_focus_synced
                    && general.focus_follows_cursor;
                &&& !follows ==> next == state && result == Ok::<Seq<u128>, WmErrorView>(
                    Seq::empty(),
                )
                &&& follows ==> {
                    let (followed, following) = cursor_followed(
                        state,
                        query.window_below_cursor,
                        position,
                    );
                    next == followed && match following {
                        Ok(_) => result == Ok::<Seq<u128>, WmErrorView>(Seq::empty()),
                        Err(error) => result == Err::<Seq<u128>, WmErrorView>(error),
                    }
                }
            }
        }),
{
}

/// Focus follows the cursor to the managed window below it, which is displayed.
pub proof fn law_focus_follows_to_the_window_below(
    state: StateView,
    i: int,
    position: Point,
    m: int,
    a: int,
)
    requires
        state.is_valid(),
        0 <= i < state.nodes.len(),
        state.nodes[i].content is Window,
        forall|j: int|
            0 <= j < i ==> !((#[trigger] state.nodes[j]).content is Window
                && state.nodes[j].content->Window_0.native
                == state.nodes[i].content->Window_0.native),
        0 <= m < state.monitors.len(),
        0 <= a < state.monitors[m].workspaces.len(),
        state.monitors[m].workspaces[a].id == state.nodes[i].workspace,
        state.focused_container() is Some,
    ensures
        ({
            let below = Some(state.nodes[i].content->Window_0.native);
            let (next, result) = cursor_followed(state, below, position);
            let id = state.nodes[i].id;
            &&& result == Ok::<(), WmErrorView>(())
            &&& next.focused_container() == Some(ContainerRef::Window(id))
            &&& state.focused_container() == Some(ContainerRef::Window(id)) ==> next == state
            &&& state.focused_container() != Some(ContainerRef::Window(id)) ==> {
                &&& next.pending_sync.needs_focus_update
                &&& next.window_focus_order[0] == id
                &&& next.monitors[m].focus_order[0] == state.nodes[i].workspace
                &&& next.focus_order[0] == state.monitors[m].id
            }
        }),
{
    lemma_native_at(state.nodes, i, 0);
    crate::state_laws::law_focused_window_is_displayed(state, i, m, a);
}

/// Without a managed window below the cursor, focus follows it to the monitor that it is on, if
/// that isn't the focused one already.
pub proof fn law_focus_follows_to_the_monitor_below(
    state: StateView,
    below: Option<isize>,
    position: Point,
    m: int,
)
    requires
        state.is_valid(),
        below matches Some(native) ==> forall|j: int|
            0 <= j < state.nodes.len() ==> !((#[trigger] state.nodes[j]).content is Window
                && state.nodes[j].content->Window_0.native == native),
        0 <= m < state.monitors.len(),
        monitor_at(state.monitors, position, 0) == Some(m),
        state.focused_monitor() is Some,
    ensures
        ({
            let (next, result) = cursor_followed(state, below, position);
            &&& result == Ok::<(), WmErrorView>(())
            &&& next.focused_monitor() == Some(m)
            &&& next.monitors == state.monitors
            &&& next.window_focus_order == state.window_focus_order
            &&& state.focused_monitor() == Some(m) ==> next == state
            &&& state.focused_monitor() != Some(m) ==> next.pending_sync.needs_focus_update
        }),
{
    if let Some(native) = below {
        law_first_window_with_a_handle_is_found(state.nodes, native, 0);
    }
    crate::state_laws::law_focused_monitor_displays_the_same(state, m);
    let focused = state.focused_monitor()->0;
    crate::wm_state::lemma_monitor_position(state.monitors, state.focus_order[0], 0);
    if focused < m {
        assert(state.monitors[focused].id != state.monitors[m].id);
    } else if m < focused {
        assert(state.monitors[m].id != state.monitors[focused].id);
    }
    let moved = state.focus(ContainerRef::Monitor(state.monitors[m].id));
    assert(moved.focus_change().focused_monitor() == moved.focused_monitor());
}

/// Updating the frame of a window changes nothing else.
pub proof fn law_frame_is_updated_alone(state: StateView, i: int, frame: Rect)
    requires
        0 <= i < state.nodes.len(),
        forall|j: int| 0 <= j < i ==> (#[trigger] state.nodes[j]).id != state.nodes[i].id,
    ensures
        ({
            let next = frame_updated(state, state.nodes[i].id, frame);
            &&& next == (StateView { nodes: next.nodes, ..state })
            &&& next.nodes.len() == state.nodes.len()
            &&& forall|j: int|
                0 <= j < state.nodes.len() && j != i ==> #[trigger] next.nodes[j] == state.nodes[j]
            &&& match state.nodes[i].content {
                NodeContentView::Window(window) => next.nodes[i] == (NodeView {
                    content: NodeContentView::Window(WindowView { frame, ..window }),
                    ..state.nodes[i]
                }),
                NodeContentView::Split { .. } => next.nodes[i] == state.nodes[i],
            }
        }),
{
    law_first_node_with_an_identifier_is_found(state.nodes, state.nodes[i].id, 0);
}

/// A window that the WM hides is hidden from then on. A window that was shown, or that the WM
/// only moves out of sight, is unmanaged once it isn't visible, unless all windows vanished with
/// a switch of the native virtual desktop. In all other cases, nothing is done.
pub proof fn law_hidden_window_is_unmanaged_unless_the_wm_hid_it(
    state: StateView,
    hide_method: HideMethod,
    i: int,
    query: HiddenQuery,
)
    requires
        0 <= i < state.nodes.len(),
        state.nodes[i].content is Window,
        forall|j: int|
            0 <= j < i ==> !((#[trigger] state.nodes[j]).content is Window
                && state.nodes[j].content->Window_0.native
                == state.nodes[i].content->Window_0.native),
    ensures
        ({
            let window = state.nodes[i].content->Window_0;
            let (next, action) = window_hidden(state, hide_method, window.native, query);
            let is_moved_away = hide_method == HideMethod::PlaceInCorner;
            let is_desktop_switch = query.is_shell_cloaked && forall|j: int|
                0 <= j < state.nodes.len() && (#[trigger] state.nodes[j]).content is Window
                    && state.nodes[j].id != state.nodes[i].id ==> !query.on_current_desktop@.contains(
                    state.nodes[j].content->Window_0.native,
                );
            if !is_moved_away && window.display_state == DisplayState::Hiding {
                &&& action == HiddenAction::Keep
                &&& next == (StateView {
                    nodes: state.nodes.update(
                        i,
                        NodeView {
                            content: NodeContentView::Window(
                                WindowView { display_state: DisplayState::Hidden, ..window },
                            ),
                            ..state.nodes[i]
                        },
                    ),
                    ..state
                })
            } else {
                &&& next == state
                &&& action == if (is_moved_away || window.display_state == DisplayState::Shown)
                    && !query.is_visible && !is_desktop_switch {
                    HiddenAction::Unmanage(state.nodes[i].id)
                } else {
                    HiddenAction::Keep
                }
            }
        }),
{
    lemma_native_at(state.nodes, i, 0);
    let natives = query.on_current_desktop@;
    let id = state.nodes[i].id;
    if crate::handle_window_hidden::other_window_remains(state.nodes, id, natives) {
        let j = choose|j: int|
            0 <= j < state.nodes.len() && (#[trigger] state.nodes[j]).window() is Some
                && state.nodes[j].id != id && natives.contains(
                state.nodes[j].window()->0.native,
            );
        assert(state.nodes[j].content is Window);
    } else {
        assert forall|j: int|
            0 <= j < state.nodes.len() && (#[trigger] state.nodes[j]).content is Window
                && state.nodes[j].id != id implies !natives.contains(
            state.nodes[j].content->Window_0.native,
        ) by {
            assert(state.nodes[j].window() is Some);
        }
    }
}

/// Nothing is done about hidden windows that aren't managed.
pub proof fn law_hidden_windows_of_others_are_left_alone(
    state: StateView,
    hide_method: HideMethod,
    native: isize,
    query: HiddenQuery,
)
    requires
        forall|j: int|
            0 <= j < state.nodes.len() ==> !((#[trigger] state.nodes[j]).content is Window
                && state.nodes[j].content->Window_0.native == native),
    ensures
        window_hidden(state, hide_method, native, query) == (state, HiddenAction::Keep),
{
    law_first_window_with_a_handle_is_found(state.nodes, native, 0);
}

/// A window that can't be controlled is ignored by its handle from then on, and nothing else is
/// changed.
pub proof fn law_uncontrollable_window_is_ignored(state: StateView, i: int)
    requires
        0 <= i < state.nodes.len(),
        state.nodes[i].content is Window,
        forall|j: int| 0 <= j < i ==> (#[trigger] state.nodes[j]).id != state.nodes[i].id,
    ensures
        ({
            let native = state.nodes[i].content->Window_0.native;
            let (next, ignored) = window_ignored(state, state.nodes[i].id);
            &&& ignored == Some(native)
            &&& next == (StateView { ignored_windows: next.ignored_windows, ..state })
            &&& next.ignored_windows.len() == state.ignored_windows.len() + 1
            &&& next.ignored_windows[state.ignored_windows.len() as int] == native
            &&& forall|k: int|
                0 <= k < state.ignored_windows.len() ==> #[trigger] next.ignored_windows[k]
                    == state.ignored_windows[k]
            &&& !is_unknown(next, native)
        }),
{
    law_first_node_with_an_identifier_is_found(state.nodes, state.nodes[i].id, 0);
    lemma_native_exists(state.nodes, i, 0);
}

proof fn lemma_native_exists(nodes: Seq<NodeView>, i: int, from: int)
    requires
        0 <= from <= i < nodes.len(),
        nodes[i].content is Window,
    ensures
        native_position(nodes, nodes[i].content->Window_0.native, from) is Some,
    decreases i - from,
{
    if from < i {
        lemma_native_exists(nodes, i, from + 1);
    }
}

/// A window is yet to be managed if and only if it is neither managed nor ignored.
pub proof fn law_unknown_window_is_neither_managed_nor_ignored(state: StateView, native: isize)
    ensures
        is_unknown(state, native) <==> !state.ignored_windows.contains(native) && forall|j: int|
            0 <= j < state.nodes.len() ==> !((#[trigger] state.nodes[j]).content is Window
                && state.nodes[j].content->Window_0.native == native),
{
    law_first_window_with_a_handle_is_found(state.nodes, native, 0);
    if let Some(at) = native_position(state.nodes, native, 0) {
        assert(state.nodes[at].content is Window);
    }
}

/// A minimized window that receives focus is restored to the state that it had before, or else to
/// the default one. Any other window stays as it is.
pub proof fn law_minimized_window_is_restored(
    state: StateView,
    behavior: WindowBehaviorConfig,
    i: int,
)
    requires
        0 <= i < state.nodes.len(),
        state.nodes[i].content is Window,
        forall|j: int|
            0 <= j < i ==> !((#[trigger] state.nodes[j]).content is Window
                && state.nodes[j].content->Window_0.native
                == state.nodes[i].content->Window_0.native),
    ensures
        ({
            let window = state.nodes[i].content->Window_0;
            let (next, target) = window_restored(state, behavior, window.native);
            if window.state == WindowState::Minimized {
                &&& target matches Some((id, restored)) && id == state.nodes[i].id && restored
                    == match window.prev_state {
                    Some(prev_state) => prev_state,
                    None => WindowState::spec_default(behavior),
                }
                &&& next == (StateView {
                    nodes: state.nodes.update(
                        i,
                        NodeView {
                            content: NodeContentView::Window(
                                WindowView { is_minimized: false, ..window },
                            ),
                            ..state.nodes[i]
                        },
                    ),
                    ..state
                })
            } else {
                next == state && target is None
            }
        }),
{
    lemma_native_at(state.nodes, i, 0);
}

/// What a window that received focus leads to. `i` is the position of the window.
///
/// Within a short time after a window was closed or minimized, focus goes back to where it should
/// be. A window that the WM is about to hide is left alone. If focus is where it should be, that
/// is noted. Otherwise, the window takes focus and its rules are run, and if it was hidden, its
/// workspace is displayed: only the instance that it is on if that is part of a spanning
/// workspace.
pub proof fn law_focused_window_takes_focus(
    state: StateView,
    configs: Seq<WorkspaceConfigView>,
    toggles: bool,
    i: int,
    query: FocusQuery,
    focused: ContainerRef,
)
    requires
        0 <= i < state.nodes.len(),
        state.nodes[i].content is Window,
        forall|j: int|
            0 <= j < i ==> !((#[trigger] state.nodes[j]).content is Window
                && state.nodes[j].content->Window_0.native
                == state.nodes[i].content->Window_0.native),
        state.focused_container() == Some(focused),
    ensures
        ({
            let node = state.nodes[i];
            let window = node.content->Window_0;
            let (next, result) = window_focused(state, configs, toggles, window.native, query);
            let is_synced = is_synced_to(state, focused, window.native, query.is_desktop_window);
            let is_late = query.since_unmanage is None || query.since_unmanage->0 >= 100;
            let noted = PendingSyncView {
                needs_focused_effect_update: true,
                ..state.pending_sync
            };
            if !is_late && !is_synced {
                &&& result == Ok::<FocusAction, WmErrorView>(FocusAction::Done)
                &&& next == (StateView {
                    is_focus_synced: false,
                    pending_sync: PendingSyncView {
                        needs_focus_update: true,
                        ..state.pending_sync
                    },
                    ..state
                })
            } else if window.display_state == DisplayState::Hiding {
                &&& result == Ok::<FocusAction, WmErrorView>(FocusAction::Done)
                &&& next == (StateView { is_focus_synced: is_synced, ..state })
            } else if focused == ContainerRef::Window(node.id) {
                &&& result == Ok::<FocusAction, WmErrorView>(FocusAction::Done)
                &&& next == (StateView {
                    is_focus_synced: true,
                    pending_sync: PendingSyncView {
                        workspaces_to_reorder: noted.workspaces_to_reorder.insert(node.workspace),
                        ..noted
                    },
                    ..state
                })
            } else {
                let effect = StateView {
                    is_focus_synced: is_synced,
                    pending_sync: noted,
                    ..state
                };
                let action = FocusAction::RunRules { window: node.id, workspace: node.workspace };
                if window.display_state != DisplayState::Hidden {
                    &&& result == Ok::<FocusAction, WmErrorView>(action)
                    &&& next == effect.focus(ContainerRef::Window(node.id))
                } else {
                    match state.locate(node.workspace) {
                        None => result == Err::<FocusAction, WmErrorView>(WmErrorView::Detached)
                            && next == effect,
                        Some(place) => {
                            let config = state.monitors[place.0].workspaces[place.1].config;
                            let (shown, showing) = if config.spanning_group is Some {
                                instance_focused(effect, node.workspace)
                            } else {
                                target_focused(
                                    effect,
                                    configs,
                                    toggles,
                                    WorkspaceTargetView::Name(config.name),
                                )
                            };
                            match showing {
                                Ok(_) => result == Ok::<FocusAction, WmErrorView>(action) && next
                                    == shown.focus(ContainerRef::Window(node.id)),
                                Err(error) => result == Err::<FocusAction, WmErrorView>(error)
                                    && next == shown,
                            }
                        },
                    }
                }
            }
        }),
{
    lemma_native_at(state.nodes, i, 0);
}

/// Windows that aren't managed take no focus from the WM's containers, but focus effects are
/// updated. Shortly after a window was closed or minimized, focus goes back.
pub proof fn law_unmanaged_window_takes_no_focus(
    state: StateView,
    configs: Seq<WorkspaceConfigView>,
    toggles: bool,
    native: isize,
    query: FocusQuery,
    focused: ContainerRef,
)
    requires
        forall|j: int|
            0 <= j < state.nodes.len() ==> !((#[trigger] state.nodes[j]).content is Window
                && state.nodes[j].content->Window_0.native == native),
        state.focused_container() == Some(focused),
    ensures
        ({
            let (next, result) = window_focused(state, configs, toggles, native, query);
            let is_synced = is_synced_to(state, focused, native, query.is_desktop_window);
            let is_late = query.since_unmanage is None || query.since_unmanage->0 >= 100;
            &&& result == Ok::<FocusAction, WmErrorView>(FocusAction::Done)
            &&& next == (StateView {
                is_focus_synced: is_synced,
                pending_sync: if !is_late && !is_synced {
                    PendingSyncView { needs_focus_update: true, ..state.pending_sync }
                } else {
                    PendingSyncView { needs_focused_effect_update: true, ..state.pending_sync }
                },
                ..state
            })
        }),
{
    law_first_window_with_a_handle_is_found(state.nodes, native, 0);
}

/// Native focus is where it should be if it is on the focused window, or on the desktop while no
/// window is focused.
pub proof fn law_focus_is_synced_to_the_focused_window(
    state: StateView,
    native: isize,
    is_desktop_window: bool,
    i: int,
    other: u128,
)
    requires
        0 <= i < state.nodes.len(),
        state.nodes[i].content is Window,
        forall|j: int| 0 <= j < i ==> (#[trigger] state.nodes[j]).id != state.nodes[i].id,
    ensures
        is_synced_to(state, ContainerRef::Window(state.nodes[i].id), native, is_desktop_window)
            <==> state.nodes[i].content->Window_0.native == native,
        is_synced_to(state, ContainerRef::Workspace(other), native, is_desktop_window)
            == is_desktop_window,
        is_synced_to(state, ContainerRef::Monitor(other), native, is_desktop_window)
            == is_desktop_window,
{
    law_first_node_with_an_identifier_is_found(state.nodes, state.nodes[i].id, 0);
}

/// Once the rules of a focused window were run, focus is where it should be, its workspace is
/// reordered, and the change is announced.
pub proof fn law_finished_focus_is_announced(state: StateView, window: u128, workspace: u128)
    ensures
        ({
            let next = focus_finished(state, window, workspace);
            &&& next.is_focus_synced
            &&& next.pending_sync == (PendingSyncView {
                workspaces_to_reorder: state.pending_sync.workspaces_to_reorder.insert(workspace),
                ..state.pending_sync
            })
            &&& next.events == state.events.push(
                WmEventView::FocusChanged { focused_container: ContainerRef::Window(window) },
            )
            &&& next == (StateView {
                is_focus_synced: true,
                pending_sync: next.pending_sync,
                events: next.events,
                ..state
            })
        }),
{
}

/// Focus can't follow the cursor where there is no monitor.
pub proof fn law_cursor_off_all_monitors_is_not_followed(
    state: StateView,
    position: Point,
)
    requires
        forall|m: int|
            0 <= m < state.monitors.len() ==> !((#[trigger] state.monitors[m]).bounds.left
                <= position.x <= state.monitors[m].bounds.right && state.monitors[m].bounds.top
                <= position.y <= state.monitors[m].bounds.bottom),
    ensures
        cursor_followed(state, None, position) == (
            state,
            Err::<(), WmErrorView>(WmErrorView::NoMonitorAtCursor),
        ),
{
    crate::drop_laws::lemma_monitor_at(state.monitors, position, 0);
}

} // verus!
