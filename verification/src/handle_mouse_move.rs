//! Mouse events.
use vstd::prelude::*;

use crate::config::GeneralConfig;
use crate::container::{
    find_native, find_node, native_position, node_position, ContainerRef, NodeContent, NodeView,
    WindowView,
};
use crate::geometry::{Point, Rect};
use crate::handle_window_hidden::contains_native;
use crate::invariants::{
    keeps, lemma_focus_keeps, lemma_keeps_itself, lemma_keeps_transitive, lemma_unrelated_keeps,
};
use crate::user_config::UserConfig;
use crate::wm_error::{WmError, WmErrorView};
use crate::wm_state::{monitor_at, StateView, WmState};

verus! {

#[derive(Clone, Copy, Debug, PartialEq, Eq, Structural)]
pub enum MouseButton {
    Left,
    Right,
}

#[derive(Debug)]
pub enum MouseEvent {
    Move { pressed_buttons: Vec<MouseButton>, position: Point },
    ButtonDown { button: MouseButton, position: Point },
    ButtonUp { button: MouseButton, position: Point },
}

/// What the platform knows when a mouse event occurs.
#[derive(Debug)]
pub struct MouseQuery {
    /// Native window at the cursor, if any.
    pub window_below_cursor: Option<isize>,
    /// Native windows that are in an OS move/size loop.
    pub in_move_size_loop: Vec<isize>,
}

/// Whether a window's active drag ends on release of the left mouse button. Only drags that
/// were detected when the window was first managed do, unless the OS is moving the window.
pub open spec fn ends_drag(window: WindowView, in_move_size_loop: Seq<isize>) -> bool {
    match window.active_drag {
        Some(drag) => drag.is_from_manage && !in_move_size_loop.contains(window.native),
        None => false,
    }
}

/// Windows among the first `count` nodes whose drag ends on release of the left mouse button.
pub open spec fn ending_drags(nodes: Seq<NodeView>, in_loop: Seq<isize>, count: nat) -> Seq<u128>
    decreases count,
{
    if count == 0 {
        Seq::empty()
    } else {
        let rest = ending_drags(nodes, in_loop, (count - 1) as nat);
        match nodes[count - 1].window() {
            Some(window) => if ends_drag(window, in_loop) {
                rest.push(nodes[count - 1].id)
            } else {
                rest
            },
            None => rest,
        }
    }
}

/// Whether focus may follow the cursor when the mouse moves.
pub open spec fn follows_cursor(
    state: StateView,
    general: GeneralConfig,
    pressed_buttons: Seq<MouseButton>,
) -> bool {
    &&& !pressed_buttons.contains(MouseButton::Left)
    &&& !pressed_buttons.contains(MouseButton::Right)
    &&& state.is_focus_synced
    &&& general.focus_follows_cursor
}

/// The state with focus on the window or the monitor at the cursor.
pub open spec fn cursor_followed(state: StateView, below: Option<isize>, position: Point) -> (
    StateView,
    Result<(), WmErrorView>,
) {
    let window = match below {
        Some(native) => native_position(state.nodes, native, 0),
        None => None,
    };
    match window {
        Some(at) => match state.focused_container() {
            None => (state, Err(WmErrorView::NoFocusedContainer)),
            Some(focused) => {
                let container = ContainerRef::Window(state.nodes[at].id);
                if focused != container {
                    (state.focus(container).focus_change(), Ok(()))
                } else {
                    (state, Ok(()))
                }
            },
        },
        None => match monitor_at(state.monitors, position, 0) {
            None => (state, Err(WmErrorView::NoMonitorAtCursor)),
            Some(monitor) => match state.focused_monitor() {
                None => (state, Err(WmErrorView::NoFocusedContainer)),
                Some(focused) => {
                    let id = state.monitors[monitor].id;
                    if state.monitors[focused].id != id {
                        (state.focus(ContainerRef::Monitor(id)).focus_change(), Ok(()))
                    } else {
                        (state, Ok(()))
                    }
                },
            },
        },
    }
}

/// The state after a mouse event, and the windows whose drag ends with it.
pub open spec fn mouse_handled(
    state: StateView,
    general: GeneralConfig,
    event: MouseEvent,
    query: MouseQuery,
) -> (StateView, Result<Seq<u128>, WmErrorView>) {
    if state.is_paused {
        (state, Ok(Seq::empty()))
    } else {
        match event {
            MouseEvent::ButtonUp { button, .. } => if button == MouseButton::Left {
                (
                    state,
                    Ok(ending_drags(state.nodes, query.in_move_size_loop@, state.nodes.len())),
                )
            } else {
                (state, Ok(Seq::empty()))
            },
            MouseEvent::Move { pressed_buttons, position } => if follows_cursor(
                state,
                general,
                pressed_buttons@,
            ) {
                let (next, result) = cursor_followed(
                    state,
                    query.window_below_cursor,
                    position,
                );
                match result {
                    Ok(_) => (next, Ok(Seq::empty())),
                    Err(error) => (next, Err(error)),
                }
            } else {
                (state, Ok(Seq::empty()))
            },
            MouseEvent::ButtonDown { .. } => (state, Ok(Seq::empty())),
        }
    }
}

/// Result with the windows by value.
pub open spec fn windows_outcome(result: Result<Vec<u128>, WmError>) -> Result<
    Seq<u128>,
    WmErrorView,
> {
    match result {
        Ok(windows) => Ok(windows@),
        Err(error) => Err(error@),
    }
}

fn is_pressed(buttons: &Vec<MouseButton>, button: MouseButton) -> (pressed: bool)
    ensures
        pressed == buttons@.contains(button),
{
    let mut i: usize = 0;
    while i < buttons.len()
        invariant
            i <= buttons@.len(),
            forall|j: int| 0 <= j < i ==> buttons@[j] != button,
        decreases buttons@.len() - i,
    {
        if buttons[i] == button {
            return true;
        }
        i = i + 1;
    }
    false
}

/// Windows whose active drag should be ended on release of the left mouse button.
///
/// Drags within an OS move/size loop are ended by the event for the end of that loop instead.
fn drags_to_end_on_button_up(in_move_size_loop: &Vec<isize>, state: &WmState) -> (windows: Vec<
    u128,
>)
    ensures
        windows@ == ending_drags(state@.nodes, in_move_size_loop@, state@.nodes.len()),
{
    let mut windows: Vec<u128> = Vec::new();
    let mut i: usize = 0;
    while i < state.nodes.len()
        invariant
            i <= state.nodes@.len(),
            windows@ == ending_drags(state@.nodes, in_move_size_loop@, i as nat),
        decreases state.nodes@.len() - i,
    {
        assert(state@.nodes[i as int] == state.nodes@[i as int]@);
        match &state.nodes[i].content {
            NodeContent::Window(window) => {
                let is_ended = match window.active_drag {
                    Some(drag) => drag.is_from_manage && !contains_native(
                        in_move_size_loop,
                        window.native,
                    ),
                    None => false,
                };
                if is_ended {
                    windows.push(state.nodes[i].id);
                }
            },
            NodeContent::Split { .. } => {},
        }
        i = i + 1;
    }
    windows
}

/// Sets focus to whichever window is currently under the cursor, or else to the monitor.
fn follow_cursor(below: Option<isize>, position: &Point, state: &mut WmState) -> (result: Result<
    (),
    WmError,
>)
    ensures
        final(state)@ == cursor_followed(old(state)@, below, *position).0,
        crate::wm_error::outcome(result) == cursor_followed(old(state)@, below, *position).1,
        keeps(old(state)@, final(state)@, 0),
{
    let ghost before = state@;
    proof {
        lemma_keeps_itself(before);
    }
    let window = match below {
        Some(native) => find_native(&state.nodes, native),
        None => None,
    };
    let container = match window {
        Some(at) => {
            assert(state@.nodes[at as int] == state.nodes@[at as int]@);
            let container = ContainerRef::Window(state.nodes[at].id);
            match state.focused_container() {
                Some(focused) => if focused != container {
                    Some(container)
                } else {
                    None
                },
                None => {
                    return Err(WmError::NoFocusedContainer);
                },
            }
        },
        None => {
            let monitor = match state.monitor_at_point(position) {
                Some(monitor) => monitor,
                None => {
                    return Err(WmError::NoMonitorAtCursor);
                },
            };
            let focused = match state.focused_monitor() {
                Some(focused) => focused,
                None => {
                    return Err(WmError::NoFocusedContainer);
                },
            };
            assert(state@.monitors[monitor as int] == state.monitors@[monitor as int]@);
            assert(state@.monitors[focused as int] == state.monitors@[focused as int]@);
            // Avoid setting focus to the same monitor.
            if state.monitors[focused].id != state.monitors[monitor].id {
                Some(ContainerRef::Monitor(state.monitors[monitor].id))
            } else {
                None
            }
        },
    };
    if let Some(container) = container {
        state.set_focused_descendant(container);
        let ghost focused = state@;
        state.pending_sync.queue_focus_change();
        proof {
            lemma_focus_keeps(before, container);
            lemma_unrelated_keeps(focused, state@);
            lemma_keeps_transitive(before, focused, state@, 0, 0);
        }
    }
    Ok(())
}

/// Handles a mouse event.
///
/// Returns the windows whose drag operation ended with the release of left click. Only drags
/// that were detected when the window was first managed (e.g. a torn-off browser tab) end this
/// way, and only if the window isn't in an OS move/size loop, since the OS might never report
/// the end of the drag for those. Otherwise, the OS would override the window's position when
/// its loop ends.
pub fn handle_mouse_move(
    event: &MouseEvent,
    query: &MouseQuery,
    state: &mut WmState,
    config: &UserConfig,
) -> (result: Result<Vec<u128>, WmError>)
    ensures
        final(state)@ == mouse_handled(old(state)@, config.value.general, *event, *query).0,
        windows_outcome(result) == mouse_handled(
            old(state)@,
            config.value.general,
            *event,
            *query,
        ).1,
        keeps(old(state)@, final(state)@, 0),
{
    proof {
        lemma_keeps_itself(state@);
    }
    // Ignore mouse move events if the WM is paused. The mouse listener should anyways be
    // disabled when the WM is paused, but this is just in case any events slipped through while
    // disabling.
    if state.is_paused {
        return Ok(Vec::new());
    }
    match event {
        MouseEvent::ButtonUp { button, .. } => {
            if *button == MouseButton::Left {
                return Ok(drags_to_end_on_button_up(&query.in_move_size_loop, state));
            }
        },
        MouseEvent::Move { pressed_buttons, position } => {
            // Ignore event if left/right-click is down. Otherwise, this causes focus to jitter
            // when a window is being resized by its drag handles. Also ignore if the OS focused
            // window isn't the same as the WM's focused window.
            if is_pressed(pressed_buttons, MouseButton::Left) || is_pressed(
                pressed_buttons,
                MouseButton::Right,
            ) || !state.is_focus_synced || !config.value.general.focus_follows_cursor {
                return Ok(Vec::new());
            }
            if let Err(error) = follow_cursor(query.window_below_cursor, position, state) {
                return Err(error);
            }
        },
        MouseEvent::ButtonDown { .. } => {},
    }
    Ok(Vec::new())
}

/// Whether a mouse event depends on which native window is at the cursor.
pub fn needs_window_below_cursor(event: &MouseEvent, state: &WmState, config: &UserConfig) -> (
    needs: bool)
    ensures
        needs == (!state@.is_paused && match *event {
            MouseEvent::Move { pressed_buttons, .. } => follows_cursor(
                state@,
                config.value.general,
                pressed_buttons@,
            ),
            _ => false,
        }),
{
    match event {
        MouseEvent::Move { pressed_buttons, .. } => !state.is_paused && !is_pressed(
            pressed_buttons,
            MouseButton::Left,
        ) && !is_pressed(pressed_buttons, MouseButton::Right) && state.is_focus_synced
            && config.value.general.focus_follows_cursor,
        _ => false,
    }
}

/// The state with the frame of a window updated.
pub open spec fn frame_updated(state: StateView, id: u128, frame: Rect) -> StateView {
    match node_position(state.nodes, id, 0) {
        Some(at) => match state.nodes[at].window() {
            Some(window) => StateView {
                nodes: state.nodes.update(
                    at,
                    state.nodes[at].with_window(WindowView { frame, ..window }),
                ),
                ..state
            },
            None => state,
        },
        None => state,
    }
}

/// Updates the frame of a window, before its drag ends.
pub fn update_frame(id: u128, frame: Rect, state: &mut WmState)
    ensures
        final(state)@ == frame_updated(old(state)@, id, frame),
        old(state)@.is_valid() ==> final(state)@.is_valid(),
{
    if let Some(at) = find_node(&state.nodes, id) {
        assert(state@.nodes[at as int] == state.nodes@[at as int]@);
        match &mut state.nodes[at].content {
            NodeContent::Window(window) => {
                window.frame = frame;
            },
            NodeContent::Split { .. } => {},
        }
        assert(state@.nodes =~= frame_updated(old(state)@, id, frame).nodes);
        proof {
            let before = old(state)@;
            if before.is_valid() && before.nodes[at as int].window() is Some {
                crate::invariants::lemma_window_change_stays_valid(
                    before,
                    at as int,
                    WindowView { frame, ..before.nodes[at as int].window()->0 },
                );
            }
        }
    }
}

} // verus!
