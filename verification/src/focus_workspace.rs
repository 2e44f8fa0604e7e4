//! Focusing workspaces.
use vstd::prelude::*;

use crate::activate_workspace::{activate_workspace, activated};
use crate::focus_spanning_workspace::{
    can_focus_page, displays_focused_page, focus_spanning_workspace, focused_page_key, is_idle,
    leads_away, page_cost, page_focused,
};
use crate::invariants::{
    keeps, lemma_deactivate_keeps, lemma_deactivate_keeps_focus, lemma_focus_keeps,
    lemma_keeps_itself, lemma_keeps_more, lemma_keeps_transitive, lemma_kept_valid,
    lemma_unrelated_keeps, placements_fit, takes_focus,
};
use crate::page_key::{key_view, PageKey, PageKeyView};
use crate::repage_spanning_desktops::{has_place, lemma_has_place};
use crate::user_config::{borrowed_workspaces, UserConfig};
use crate::wm_error::{outcome, WmError, WmErrorView};
use crate::wm_state::{lemma_located, shows, StateView, WmState};
use crate::workspace::WorkspaceView;
use crate::workspace_config::WorkspaceConfigView;

verus! {

/// Workspace to focus.
#[derive(Debug, PartialEq, Eq)]
pub enum WorkspaceTarget {
    /// The workspace with the name.
    Name(String),
    /// The workspace that had focus before the current one.
    Recent,
    /// The next or previous workspace, or the one in a given direction, if there is one.
    Adjacent(Option<u128>),
}

pub enum WorkspaceTargetView {
    Name(Seq<char>),
    Recent,
    Adjacent(Option<u128>),
}

impl View for WorkspaceTarget {
    type V = WorkspaceTargetView;

    open spec fn view(&self) -> WorkspaceTargetView {
        match self {
            WorkspaceTarget::Name(name) => WorkspaceTargetView::Name(name@),
            WorkspaceTarget::Recent => WorkspaceTargetView::Recent,
            WorkspaceTarget::Adjacent(id) => WorkspaceTargetView::Adjacent(*id),
        }
    }
}

/// First idle one of the given workspaces from `from` on.
pub open spec fn first_idle(state: StateView, workspaces: Seq<WorkspaceView>, from: int) -> Option<
    u128,
>
    decreases workspaces.len() - from,
{
    if from < 0 || from >= workspaces.len() {
        None
    } else if is_idle(state, workspaces[from]) {
        Some(workspaces[from].id)
    } else {
        first_idle(state, workspaces, from + 1)
    }
}

/// The state with a single workspace displayed and focused.
pub open spec fn instance_focused(state: StateView, id: u128) -> (
    StateView,
    Result<(), WmErrorView>,
) {
    match state.locate(id) {
        None => (state, Err(WmErrorView::NoDisplayedWorkspace)),
        Some((monitor, _)) => match state.monitors[monitor].displayed() {
            None => (state, Err(WmErrorView::NoDisplayedWorkspace)),
            Some(at) => {
                let displayed = state.monitors[monitor].workspaces[at].id;
                let shown = state.focus(state.container_to_focus(id)).focus_change().redraw(
                    displayed,
                ).redraw(id);
                match first_idle(shown, shown.workspaces(), 0) {
                    Some(idle) => shown.deactivate(idle),
                    None => (shown, Ok(())),
                }
            },
        },
    }
}

pub proof fn lemma_first_idle(state: StateView, workspaces: Seq<WorkspaceView>, from: int)
    requires
        0 <= from,
    ensures
        first_idle(state, workspaces, from) matches Some(id) ==> !state.has_children(id)
            && !state.is_displayed(id),
    decreases workspaces.len() - from,
{
    if from < workspaces.len() {
        lemma_first_idle(state, workspaces, from + 1);
    }
}

/// Whether the monitors that a workspace isn't on display the same as before.
pub open spec fn displays_same_elsewhere(
    before: StateView,
    after: StateView,
    workspace: u128,
) -> bool {
    forall|m: int, w: u128|
        0 <= m < before.monitors.len() && (before.locate(workspace) matches Some(place) ==> place.0
            != m) ==> (#[trigger] shows(after.monitors[m], w) <==> shows(before.monitors[m], w))
}

/// Focuses a single active workspace, displaying it on its monitor.
///
/// For instances of spanning workspaces, only this one instance is affected (other monitors
/// keep their displayed workspace). Focusing the whole page is done via
/// `focus_spanning_workspace`.
pub fn focus_workspace_instance(target_workspace: u128, state: &mut WmState) -> (result: Result<
    (),
    WmError,
>)
    ensures
        final(state)@ == instance_focused(old(state)@, target_workspace).0,
        outcome(result) == instance_focused(old(state)@, target_workspace).1,
        keeps(old(state)@, final(state)@, 0),
        result is Ok && old(state)@.is_valid() ==> final(state)@.focused_container() == Some(
            old(state)@.container_to_focus(target_workspace),
        ) && displays_same_elsewhere(old(state)@, final(state)@, target_workspace),
{
    let ghost before = state@;
    proof {
        lemma_keeps_itself(before);
    }
    // Get the currently displayed workspace on the same monitor that the workspace to focus is
    // on.
    let monitor = match state.locate(target_workspace) {
        Some((monitor, _)) => monitor,
        None => {
            return Err(WmError::NoDisplayedWorkspace);
        },
    };
    assert(state@.monitors[monitor as int] == state.monitors@[monitor as int]@);
    let displayed_workspace = match state.monitors[monitor].displayed_workspace() {
        Some(at) => {
            proof {
                lemma_has_place(*state, monitor, at);
            }
            state.monitors[monitor].workspaces[at].id
        },
        None => {
            return Err(WmError::NoDisplayedWorkspace);
        },
    };
    // Set focus to whichever window last had focus in workspace. If the workspace has no
    // windows, then set focus to the workspace itself.
    let container_to_focus = state.container_to_focus(target_workspace);
    state.set_focused_descendant(container_to_focus);
    let ghost focused = state@;
    state.pending_sync.queue_focus_change();
    // Display the workspace to switch focus to.
    state.pending_sync.queue_container_to_redraw(displayed_workspace);
    state.pending_sync.queue_container_to_redraw(target_workspace);
    let ghost shown = state@;
    proof {
        lemma_focus_keeps(before, container_to_focus);
        lemma_unrelated_keeps(focused, shown);
        lemma_keeps_transitive(before, focused, shown, 0, 0);
        if before.is_valid() {
            lemma_workspace_takes_focus(before, target_workspace);
            crate::invariants::law_focused_container_has_focus(before, container_to_focus);
            lemma_kept_valid(before, shown, 0);
            assert(shown.focused_container() == focused.focused_container());
            lemma_located(before.monitors, target_workspace, 0);
            let (m, a) = before.locate(target_workspace)->0;
            crate::page_display::lemma_focus_displays(before, m, a);
            assert(displays_same_elsewhere(before, shown, target_workspace));
        }
    }
    // Get empty workspace to destroy (if one is found). Cannot destroy empty workspaces if
    // they're the only workspace on the monitor.
    let workspace_to_destroy = find_idle_workspace(state);
    match workspace_to_destroy {
        Some(workspace) => {
            let result = state.deactivate_workspace(workspace);
            proof {
                lemma_first_idle(shown, shown.workspaces(), 0);
                lemma_deactivate_keeps(shown, workspace);
                lemma_keeps_transitive(before, shown, state@, 0, 0);
                if before.is_valid() {
                    lemma_deactivate_keeps_focus(shown, workspace);
                }
            }
            result
        },
        None => Ok(()),
    }
}

/// What gets focus along with a workspace takes it.
proof fn lemma_workspace_takes_focus(state: StateView, id: u128)
    requires
        state.locate(id) is Some,
    ensures
        takes_focus(state, state.container_to_focus(id)),
{
    crate::invariants::lemma_recent_window(state.window_focus_order, state.nodes, id, 0);
}

/// Finds an empty hidden workspace that isn't kept alive.
fn find_idle_workspace(state: &WmState) -> (id: Option<u128>)
    ensures
        id == first_idle(state@, state@.workspaces(), 0),
{
    let workspaces = state.workspaces();
    let mut i: usize = 0;
    while i < workspaces.len()
        invariant
            i <= workspaces@.len(),
            borrowed_workspaces(workspaces@) == state@.workspaces(),
            first_idle(state@, state@.workspaces(), 0) == first_idle(
                state@,
                state@.workspaces(),
                i as int,
            ),
        decreases workspaces@.len() - i,
    {
        let workspace = workspaces[i];
        assert(state@.workspaces()[i as int] == workspace@);
        if !workspace.config.keep_alive && !state.has_children(workspace.id)
            && !state.is_displayed(workspace.id) {
            return Some(workspace.id);
        }
        i = i + 1;
    }
    None
}

/// Identifier of the active workspace with the given name.
pub open spec fn active_id(state: StateView, name: Seq<char>) -> Option<u128> {
    match state.workspace_by_name(name) {
        Some(workspace) => Some(workspace.id),
        None => None,
    }
}

/// Name and workspace of the recent workspace.
pub open spec fn recent_target(state: StateView) -> (Option<Seq<char>>, Option<u128>) {
    match state.recent_workspace_name {
        Some(recent) => (Some(recent), active_id(state, recent)),
        None => (None, None),
    }
}

/// Name and workspace that a target stands for. Naming the focused workspace leads back to the
/// recent one, or nowhere.
pub open spec fn target_of(
    state: StateView,
    toggles: bool,
    target: WorkspaceTargetView,
    place: (int, int),
) -> (Option<Seq<char>>, Option<u128>) {
    match target {
        WorkspaceTargetView::Name(name) => if state.workspace(place).config.name != name {
            (Some(name), active_id(state, name))
        } else if toggles {
            recent_target(state)
        } else {
            (None, None)
        },
        WorkspaceTargetView::Recent => recent_target(state),
        WorkspaceTargetView::Adjacent(id) => (None, id),
    }
}

/// The state with a target that doesn't stand for a page activated, if need be.
pub open spec fn target_activated(
    state: StateView,
    configs: Seq<WorkspaceConfigView>,
    found: (Option<Seq<char>>, Option<u128>),
) -> (StateView, Result<Option<u128>, WmErrorView>) {
    match found {
        (_, Some(id)) => (state, Ok(Some(id))),
        (Some(name), None) => {
            let (next, result) = activated(state, configs, Some(name), None);
            match result {
                Ok(_) => (next, Ok(active_id(next, name))),
                Err(error) => (next, Err(error)),
            }
        },
        (None, None) => (state, Ok(None)),
    }
}

/// The state with a target that doesn't stand for a page focused.
pub open spec fn regular_focused(
    state: StateView,
    configs: Seq<WorkspaceConfigView>,
    toggles: bool,
    target: WorkspaceTargetView,
    place: (int, int),
) -> (StateView, Result<(), WmErrorView>) {
    let (active, activating) = target_activated(
        state,
        configs,
        target_of(state, toggles, target, place),
    );
    match activating {
        Ok(Some(id)) => {
            let (focused, focusing) = instance_focused(active, id);
            match focusing {
                Ok(_) => {
                    let named = StateView {
                        recent_workspace_name: Some(state.workspace(place).config.logical_name()),
                        ..focused
                    };
                    (named.sync(named.pending_sync.cursor_jump()), Ok(()))
                },
                Err(error) => (focused, Err(error)),
            }
        },
        Ok(None) => (active, Ok(())),
        Err(error) => (active, Err(error)),
    }
}

/// A found target, with its name by value.
pub open spec fn found_view(found: (Option<String>, Option<u128>)) -> (
    Option<Seq<char>>,
    Option<u128>,
) {
    (crate::text::text_view(found.0), found.1)
}

fn find_active(state: &WmState, name: &str) -> (id: Option<u128>)
    ensures
        id == active_id(state@, name@),
{
    match state.workspace_by_name(name) {
        Some(workspace) => Some(workspace.id),
        None => None,
    }
}

fn find_recent(state: &WmState) -> (found: (Option<String>, Option<u128>))
    ensures
        found_view(found) == recent_target(state@),
{
    match &state.recent_workspace_name {
        Some(recent) => (Some(recent.clone()), find_active(state, recent.as_str())),
        None => (None, None),
    }
}

/// Finds the name and workspace that a target stands for.
fn workspace_by_target(
    target: &WorkspaceTarget,
    origin: (usize, usize),
    state: &WmState,
    config: &UserConfig,
) -> (found: (Option<String>, Option<u128>))
    requires
        has_place(state@, origin.0, origin.1),
    ensures
        found_view(found) == target_of(
            state@,
            config.value.general.toggle_workspace_on_refocus,
            target@,
            (origin.0 as int, origin.1 as int),
        ),
{
    proof {
        lemma_has_place(*state, origin.0, origin.1);
    }
    match target {
        WorkspaceTarget::Name(name) => {
            let origin_name = &state.monitors[origin.0].workspaces[origin.1].config.name;
            if *origin_name != *name {
                (Some(name.clone()), find_active(state, name.as_str()))
            } else if config.value.general.toggle_workspace_on_refocus {
                find_recent(state)
            } else {
                (None, None)
            }
        },
        WorkspaceTarget::Recent => find_recent(state),
        WorkspaceTarget::Adjacent(id) => (None, *id),
    }
}

/// Focuses a target that doesn't stand for a page of a spanning workspace.
pub(crate) fn focus_regular_workspace(
    target: &WorkspaceTarget,
    origin: (usize, usize),
    state: &mut WmState,
    config: &UserConfig,
) -> (result: Result<(), WmError>)
    requires
        has_place(old(state)@, origin.0, origin.1),
    ensures
        final(state)@ == regular_focused(
            old(state)@,
            config.value@.workspaces,
            config.value.general.toggle_workspace_on_refocus,
            target@,
            (origin.0 as int, origin.1 as int),
        ).0,
        outcome(result) == regular_focused(
            old(state)@,
            config.value@.workspaces,
            config.value.general.toggle_workspace_on_refocus,
            target@,
            (origin.0 as int, origin.1 as int),
        ).1,
        keeps(old(state)@, final(state)@, 1),
{
    let ghost before = state@;
    proof {
        lemma_keeps_itself(before);
        lemma_has_place(*state, origin.0, origin.1);
    }
    let origin_name = state.monitors[origin.0].workspaces[origin.1].config.logical_name();
    let (target_name, found) = workspace_by_target(target, origin, state, config);
    // Retrieve or activate the target workspace by its name.
    let target_workspace = match found {
        Some(id) => Some(id),
        None => match target_name {
            Some(name) => {
                if let Err(error) = activate_workspace(Some(name.as_str()), None, state, config) {
                    return Err(error);
                }
                find_active(state, name.as_str())
            },
            None => None,
        },
    };
    let ghost active = state@;
    if let Some(id) = target_workspace {
        let focusing = focus_workspace_instance(id, state);
        let ghost focused = state@;
        proof {
            lemma_keeps_transitive(before, active, focused, 1, 0);
        }
        if let Err(error) = focusing {
            return Err(error);
        }
        // Save the currently focused workspace as recent. For instances of spanning
        // workspaces, the page label is saved instead so that recent-toggling returns to the
        // whole page.
        state.recent_workspace_name = Some(origin_name);
        state.pending_sync.queue_cursor_jump();
        proof {
            lemma_unrelated_keeps(focused, state@);
            lemma_keeps_transitive(before, focused, state@, 1, 0);
        }
    }
    Ok(())
}

/// Page of a spanning workspace that a target stands for.
pub open spec fn target_page(
    state: StateView,
    configs: Seq<WorkspaceConfigView>,
    target: WorkspaceTargetView,
) -> Option<PageKeyView> {
    match target {
        WorkspaceTargetView::Name(name) => state.resolve_target(configs, name),
        WorkspaceTargetView::Recent => match state.recent_workspace_name {
            Some(recent) => state.resolve_target(configs, recent),
            None => None,
        },
        WorkspaceTargetView::Adjacent(_) => None,
    }
}

/// The state with a target focused.
pub open spec fn target_focused(
    state: StateView,
    configs: Seq<WorkspaceConfigView>,
    toggles: bool,
    target: WorkspaceTargetView,
) -> (StateView, Result<(), WmErrorView>) {
    match state.focused_workspace() {
        None => (state, Err(WmErrorView::NoFocusedWorkspace)),
        Some(place) => match target_page(state, configs, target) {
            Some(key) => page_focused(state, configs, toggles, key),
            None => regular_focused(state, configs, toggles, target, place),
        },
    }
}

/// Whether every monitor displays the page that a name stands for, if it does, after it was
/// focused.
pub open spec fn displays_named_page(
    before: StateView,
    after: StateView,
    configs: Seq<WorkspaceConfigView>,
    toggles: bool,
    name: Seq<char>,
) -> bool {
    match before.resolve_target(configs, name) {
        Some(asked_for) => match focused_page_key(before, configs, toggles, asked_for) {
            Some(key) => displays_focused_page(before, after, configs, key),
            None => true,
        },
        None => true,
    }
}

/// Whether focusing a target can't end up toggling between two names of the same page.
pub open spec fn is_focusable(
    state: StateView,
    configs: Seq<WorkspaceConfigView>,
    toggles: bool,
    target: WorkspaceTargetView,
) -> bool {
    match target_page(state, configs, target) {
        Some(key) => leads_away(state, configs, toggles, key),
        None => true,
    }
}

/// Page of a spanning workspace that a target stands for.
fn page_of_target(target: &WorkspaceTarget, state: &WmState, config: &UserConfig) -> (key: Option<
    PageKey,
>)
    ensures
        key_view(key) == target_page(state@, config.value@.workspaces, target@),
{
    match target {
        WorkspaceTarget::Name(name) => state.resolve_spanning_target(name.as_str(), config),
        WorkspaceTarget::Recent => match &state.recent_workspace_name {
            Some(recent) => state.resolve_spanning_target(recent.as_str(), config),
            None => None,
        },
        WorkspaceTarget::Adjacent(_) => None,
    }
}

/// Whether a target can be focused.
pub fn can_focus_target(target: &WorkspaceTarget, state: &WmState, config: &UserConfig) -> (can:
    bool)
    ensures
        can == is_focusable(
            state@,
            config.value@.workspaces,
            config.value.general.toggle_workspace_on_refocus,
            target@,
        ),
{
    match page_of_target(target, state, config) {
        Some(page_key) => can_focus_page(&page_key, state, config),
        None => true,
    }
}

/// Focuses a workspace by a given target.
///
/// This target can be a workspace name, the most recently focused workspace, the next
/// workspace, the previous workspace, or the workspace in a given direction from the currently
/// focused workspace.
///
/// The workspace will be activated if it isn't already active.
pub fn focus_workspace(target: WorkspaceTarget, state: &mut WmState, config: &UserConfig) -> (
    result: Result<(), WmError>)
    requires
        placements_fit(old(state)@),
        is_focusable(
            old(state)@,
            config.value@.workspaces,
            config.value.general.toggle_workspace_on_refocus,
            target@,
        ),
    ensures
        final(state)@ == target_focused(
            old(state)@,
            config.value@.workspaces,
            config.value.general.toggle_workspace_on_refocus,
            target@,
        ).0,
        outcome(result) == target_focused(
            old(state)@,
            config.value@.workspaces,
            config.value.general.toggle_workspace_on_refocus,
            target@,
        ).1,
        keeps(old(state)@, final(state)@, page_cost(old(state)@) + 1),
        result is Ok ==> match target@ {
            WorkspaceTargetView::Name(name) => displays_named_page(
                old(state)@,
                final(state)@,
                config.value@.workspaces,
                config.value.general.toggle_workspace_on_refocus,
                name,
            ),
            WorkspaceTargetView::Recent => old(state)@.recent_workspace_name is Some
                ==> displays_named_page(
                old(state)@,
                final(state)@,
                config.value@.workspaces,
                config.value.general.toggle_workspace_on_refocus,
                old(state)@.recent_workspace_name->0,
            ),
            WorkspaceTargetView::Adjacent(_) => true,
        },
{
    let ghost before = state@;
    proof {
        lemma_keeps_itself(before);
    }
    let (monitor, at) = match state.focused_workspace() {
        Some(place) => place,
        None => {
            return Err(WmError::NoFocusedWorkspace);
        },
    };
    assert(state@.monitors[monitor as int] == state.monitors@[monitor as int]@);
    // Pages of spanning ("virtual desktop") workspaces switch all monitors at once.
    let page_key = page_of_target(&target, state, config);
    match page_key {
        Some(page_key) => focus_spanning_workspace(&page_key, state, config),
        None => {
            let result = focus_regular_workspace(&target, (monitor, at), state, config);
            proof {
                lemma_keeps_more(before, state@, 1, page_cost(before) + 1);
            }
            result
        },
    }
}

} // verus!
