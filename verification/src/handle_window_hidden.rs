//! Windows that were hidden.
use vstd::prelude::*;

use crate::config::HideMethod;
use crate::container::{
    find_native, native_position, nodes_view, DisplayState, Node, NodeContent, NodeView, WindowView,
};
use crate::user_config::UserConfig;
use crate::wm_state::{StateView, WmState};

verus! {

/// What the platform knows about windows when one of them is hidden.
#[derive(Debug)]
pub struct HiddenQuery {
    /// Whether the native window is visible after all.
    pub is_visible: bool,
    /// Whether the native window is cloaked by the shell.
    pub is_shell_cloaked: bool,
    /// Native windows that are on the current native virtual desktop.
    pub on_current_desktop: Vec<isize>,
}

/// What is to be done about a window that was hidden.
#[derive(Clone, Copy, Debug, PartialEq, Eq, Structural)]
pub enum HiddenAction {
    Keep,
    Unmanage(u128),
}

/// Whether another managed window is among the given native ones.
pub open spec fn other_window_remains(
    nodes: Seq<NodeView>,
    window: u128,
    natives: Seq<isize>,
) -> bool {
    exists|i: int|
        0 <= i < nodes.len() && (#[trigger] nodes[i]).window() is Some && nodes[i].id != window
            && natives.contains(nodes[i].window()->0.native)
}

/// Whether a window was hidden along with all others.
pub open spec fn hidden_by_desktop_switch(
    nodes: Seq<NodeView>,
    window: u128,
    is_shell_cloaked: bool,
    on_current_desktop: Seq<isize>,
) -> bool {
    is_shell_cloaked && !other_window_remains(nodes, window, on_current_desktop)
}

pub fn contains_native(natives: &Vec<isize>, native: isize) -> (contains: bool)
    ensures
        contains == natives@.contains(native),
{
    let mut i: usize = 0;
    while i < natives.len()
        invariant
            i <= natives@.len(),
            forall|j: int| 0 <= j < i ==> natives@[j] != native,
        decreases natives@.len() - i,
    {
        if natives[i] == native {
            return true;
        }
        i = i + 1;
    }
    false
}

/// Whether the window was hidden by a native virtual desktop switch (e.g. `ctrl+win+right`), as
/// opposed to being genuinely hidden or deliberately moved to another virtual desktop.
///
/// A desktop switch shell-cloaks the windows of *all* monitors at once, so it's detected by no
/// other managed window remaining on the current virtual desktop. In contrast, when a single
/// window is moved to another desktop, the remaining windows stay on the current desktop and
/// the moved window is unmanaged as usual.
///
/// Windows pinned to all virtual desktops count as remaining, so a desktop switch with pinned
/// managed windows is misdetected as a deliberate move; this is an accepted limitation.
fn is_hidden_by_desktop_switch(
    window: u128,
    is_shell_cloaked: bool,
    on_current_desktop: &Vec<isize>,
    state: &WmState,
) -> (hidden: bool)
    ensures
        hidden == hidden_by_desktop_switch(
            state@.nodes,
            window,
            is_shell_cloaked,
            on_current_desktop@,
        ),
{
    if !is_shell_cloaked {
        return false;
    }
    let mut i: usize = 0;
    while i < state.nodes.len()
        invariant
            i <= state.nodes@.len(),
            is_shell_cloaked,
            forall|j: int|
                0 <= j < i ==> !((#[trigger] state@.nodes[j]).window() is Some
                    && state@.nodes[j].id != window && on_current_desktop@.contains(
                    state@.nodes[j].window()->0.native,
                )),
        decreases state.nodes@.len() - i,
    {
        assert(state@.nodes[i as int] == state.nodes@[i as int]@);
        match &state.nodes[i].content {
            NodeContent::Window(other) => {
                if state.nodes[i].id != window && contains_native(
                    on_current_desktop,
                    other.native,
                ) {
                    return false;
                }
            },
            NodeContent::Split { .. } => {},
        }
        i = i + 1;
    }
    true
}

/// The state after a native window was hidden, and what is to be done about it.
pub open spec fn window_hidden(
    state: StateView,
    hide_method: HideMethod,
    native: isize,
    query: HiddenQuery,
) -> (StateView, HiddenAction) {
    match native_position(state.nodes, native, 0) {
        None => (state, HiddenAction::Keep),
        Some(at) => {
            let id = state.nodes[at].id;
            let window = state.nodes[at].window()->0;
            if hide_method != HideMethod::PlaceInCorner && window.display_state
                == DisplayState::Hiding {
                (
                    StateView {
                        nodes: state.nodes.update(
                            at,
                            state.nodes[at].with_window(
                                WindowView { display_state: DisplayState::Hidden, ..window },
                            ),
                        ),
                        ..state
                    },
                    HiddenAction::Keep,
                )
            } else if (hide_method == HideMethod::PlaceInCorner || window.display_state
                == DisplayState::Shown) && !query.is_visible && !hidden_by_desktop_switch(
                state.nodes,
                id,
                query.is_shell_cloaked,
                query.on_current_desktop@,
            ) {
                (state, HiddenAction::Unmanage(id))
            } else {
                (state, HiddenAction::Keep)
            }
        },
    }
}

fn set_display_state(nodes: &mut Vec<Node>, at: usize, display_state: DisplayState)
    requires
        at < old(nodes)@.len(),
        old(nodes)@[at as int]@.window() is Some,
    ensures
        nodes_view(final(nodes)@) == nodes_view(old(nodes)@).update(
            at as int,
            old(nodes)@[at as int]@.with_window(
                WindowView { display_state, ..old(nodes)@[at as int]@.window()->0 },
            ),
        ),
{
    match &mut nodes[at].content {
        NodeContent::Window(window) => {
            window.display_state = display_state;
        },
        NodeContent::Split { .. } => {},
    }
    assert(nodes_view(nodes@) =~= nodes_view(old(nodes)@).update(
        at as int,
        old(nodes)@[at as int]@.with_window(
            WindowView { display_state, ..old(nodes)@[at as int]@.window()->0 },
        ),
    ));
}

/// Handles the event for when a native window was hidden.
pub fn handle_window_hidden(
    native_window: isize,
    query: &HiddenQuery,
    state: &mut WmState,
    config: &UserConfig,
) -> (action: HiddenAction)
    ensures
        final(state)@ == window_hidden(
            old(state)@,
            config.value.general.hide_method,
            native_window,
            *query,
        ).0,
        action == window_hidden(
            old(state)@,
            config.value.general.hide_method,
            native_window,
            *query,
        ).1,
        old(state)@.is_valid() ==> final(state)@.is_valid(),
{
    let hide_method = config.value.general.hide_method;
    let at = match find_native(&state.nodes, native_window) {
        Some(at) => at,
        None => {
            return HiddenAction::Keep;
        },
    };
    assert(state@.nodes[at as int] == state.nodes@[at as int]@);
    let id = state.nodes[at].id;
    let display_state = match &state.nodes[at].content {
        NodeContent::Window(window) => window.display_state,
        NodeContent::Split { .. } => {
            return HiddenAction::Keep;
        },
    };
    // Update the display state.
    if hide_method != HideMethod::PlaceInCorner && display_state == DisplayState::Hiding {
        set_display_state(&mut state.nodes, at, DisplayState::Hidden);
        proof {
            let before = old(state)@;
            if before.is_valid() {
                crate::invariants::lemma_window_change_stays_valid(
                    before,
                    at as int,
                    WindowView {
                        display_state: DisplayState::Hidden,
                        ..before.nodes[at as int].window()->0
                    },
                );
            }
        }
        return HiddenAction::Keep;
    }
    // Unmanage the window if it's not in a display state transition. Also, since window events
    // are not 100% guaranteed to be in correct order, we need to ignore events where the window
    // is not actually hidden. Windows hidden by a native virtual desktop switch are kept
    // managed, so that switching back restores the exact layout.

    if (hide_method == HideMethod::PlaceInCorner || display_state == DisplayState::Shown)
        && !query.is_visible && !is_hidden_by_desktop_switch(
        id,
        query.is_shell_cloaked,
        &query.on_current_desktop,
        state,
    ) {
        HiddenAction::Unmanage(id)
    } else {
        HiddenAction::Keep
    }
}

} // verus!
