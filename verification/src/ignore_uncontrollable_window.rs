//! Windows that can't be controlled.
use vstd::prelude::*;

use crate::container::{find_node, node_position, NodeContent};
use crate::invariants::{keeps, lemma_keeps_itself, lemma_unrelated_keeps};
use crate::wm_state::{StateView, WmState};

verus! {

/// The state with a window ignored from now on, and its native window, which is to be shown and
/// unmanaged.
pub open spec fn window_ignored(state: StateView, window: u128) -> (StateView, Option<isize>) {
    match node_position(state.nodes, window, 0) {
        Some(at) => match state.nodes[at].window() {
            Some(found) => (
                StateView { ignored_windows: state.ignored_windows.push(found.native), ..state },
                Some(found.native),
            ),
            None => (state, None),
        },
        None => (state, None),
    }
}

/// Stops managing a window that the WM isn't allowed to control, and keeps it ignored for the
/// rest of the session.
///
/// Positioning a window fails with an access denied error when it belongs to a process with
/// higher privileges than the WM's (e.g. Task Manager while the WM isn't elevated). Such a
/// window would otherwise keep its tile forever without ever being moved into it, leaving a gap
/// in the layout that can't be filled.
///
/// Returns the native window. It may be hidden if it's on a non-displayed workspace, so it is
/// to be shown before it is unmanaged.
pub fn ignore_uncontrollable_window(window: u128, state: &mut WmState) -> (native: Option<isize>)
    ensures
        final(state)@ == window_ignored(old(state)@, window).0,
        native == window_ignored(old(state)@, window).1,
        keeps(old(state)@, final(state)@, 0),
{
    proof {
        lemma_keeps_itself(state@);
    }
    let native = match find_node(&state.nodes, window) {
        Some(at) => {
            assert(state@.nodes[at as int] == state.nodes@[at as int]@);
            match &state.nodes[at].content {
                NodeContent::Window(window) => window.native,
                NodeContent::Split { .. } => {
                    return None;
                },
            }
        },
        None => {
            return None;
        },
    };
    state.ignored_windows.push(native);
    proof {
        lemma_unrelated_keeps(old(state)@, state@);
    }
    Some(native)
}

} // verus!
