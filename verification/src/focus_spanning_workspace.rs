//! Focusing pages of spanning workspaces, on all monitors at once.
use std::collections::VecDeque;
use vstd::prelude::*;

use crate::activate_workspace::{activate_spanning_instance, spanning_activated};
use crate::first_page_laws::{
    lemma_deactivate_stays_settled, lemma_display_stays_settled, settles_group,
};
use crate::focus_workspace::{
    focus_regular_workspace, regular_focused, WorkspaceTarget, WorkspaceTargetView,
};
use crate::invariants::{
    keeps, lemma_deactivate_keeps, lemma_deactivate_keeps_focus, lemma_focus_keeps,
    lemma_keeps_itself, lemma_keeps_more, lemma_keeps_transitive, lemma_kept, lemma_kept_valid,
    lemma_unrelated_keeps, placements_fit,
};
use crate::monitor::{Monitor, MonitorView};
use crate::packing_laws::regular_configs_join_first_page;
use crate::page_display::{
    displays_page_everywhere, law_page_is_displayed_on_every_monitor, lemma_deactivate_keeps_page,
    lemma_same_but_homes_keeps_page,
};
use crate::page_keeping::{is_reassigned, keeps_page, switches_to};
use crate::page_key::{PageKey, PageKeyView};
use crate::repage_spanning_desktops::{focus_follows, repage_spanning_desktops, repaged};
use crate::settled_homes::{homes_are_unrivalled, is_settled};
use crate::untouched::lemma_same_focus;
use crate::user_config::{borrowed_workspaces, spanning_config, UserConfig};
use crate::wm_error::{outcome, WmError, WmErrorView};
use crate::wm_event::{WmEvent, WmEventView};
use crate::wm_state::{borrowed_workspace, monitor_position, shows, StateView, WmState};
use crate::workspace::{Workspace, WorkspaceView};
use crate::workspace_config::WorkspaceConfigView;
use crate::workspace_map::found;

verus! {

/// Instances of a page among the `count` most recently focused workspaces of a monitor.
pub open spec fn page_instances(monitor: MonitorView, key: PageKeyView, count: nat) -> Seq<
    WorkspaceView,
>
    decreases count,
{
    if count == 0 {
        Seq::empty()
    } else {
        let rest = page_instances(monitor, key, (count - 1) as nat);
        match monitor.position(monitor.focus_order[count - 1]) {
            Some(at) => if monitor.workspaces[at].config.page_key() == Some(key) {
                rest.push(monitor.workspaces[at])
            } else {
                rest
            },
            None => rest,
        }
    }
}

/// The most recently focused instance of a page on a monitor.
pub open spec fn page_instance(monitor: MonitorView, key: PageKeyView) -> Option<WorkspaceView> {
    let instances = page_instances(monitor, key, monitor.focus_order.len());
    if instances.len() == 0 {
        None
    } else {
        Some(instances[0])
    }
}

/// All workspace instances of a spanning page on the given monitor, ordered from most to least
/// recently focused.
pub fn spanning_instances_on_monitor<'a>(monitor: &'a Monitor, page_key: &PageKey) -> (instances:
    VecDeque<&'a Workspace>)
    ensures
        borrowed_workspaces(instances@) == page_instances(
            monitor@,
            page_key@,
            monitor@.focus_order.len(),
        ),
{
    let mut instances: VecDeque<&'a Workspace> = VecDeque::new();
    let mut i: usize = 0;
    assert(borrowed_workspaces(instances@) =~= Seq::empty());
    while i < monitor.focus_order.len()
        invariant
            i <= monitor.focus_order@.len(),
            borrowed_workspaces(instances@) == page_instances(monitor@, page_key@, i as nat),
        decreases monitor.focus_order@.len() - i,
    {
        if let Some(at) = monitor.find_workspace(monitor.focus_order[i]) {
            let workspace = &monitor.workspaces[at];
            assert(monitor@.workspaces[at as int] == workspace@);
            let is_instance = match workspace.config.page_key() {
                Some(key) => key.same_page(page_key),
                None => false,
            };
            if is_instance {
                let ghost so_far = instances@;
                instances.push_back(workspace);
                assert(borrowed_workspaces(instances@) =~= borrowed_workspaces(so_far).push(
                    workspace@,
                ));
            }
        }
        i = i + 1;
    }
    instances
}

/// The workspace instance of a spanning page on the given monitor, preferring the most recently
/// focused one should there be several.
pub fn spanning_instance_on_monitor<'a>(monitor: &'a Monitor, page_key: &PageKey) -> (instance:
    Option<&'a Workspace>)
    ensures
        borrowed_workspace(instance) == page_instance(monitor@, page_key@),
{
    let mut instances = spanning_instances_on_monitor(monitor, page_key);
    let ghost found = instances@;
    assert(borrowed_workspaces(found).len() == found.len());
    let first = instances.pop_front();
    assert(found.len() > 0 ==> borrowed_workspaces(found)[0] == found[0]@);
    first
}

/// The state with an instance of a page on a monitor, and the identifier of the instance.
pub open spec fn with_page_instance(
    state: StateView,
    configs: Seq<WorkspaceConfigView>,
    monitor: int,
    key: PageKeyView,
) -> (StateView, Result<u128, WmErrorView>) {
    match page_instance(state.monitors[monitor], key) {
        Some(instance) => (state, Ok(instance.id)),
        None => spanning_activated(state, configs, key, monitor),
    }
}

/// The state with a workspace displayed in place of another one. Native focus only moves on the
/// focused monitor.
pub open spec fn switched(
    state: StateView,
    displayed: u128,
    instance: u128,
    is_focused_monitor: bool,
) -> StateView {
    let focused = state.focus(state.container_to_focus(instance));
    let synced = if is_focused_monitor {
        focused.focus_change()
    } else {
        focused
    };
    if displayed == instance {
        synced
    } else {
        synced.redraw(displayed).redraw(instance).emit(
            WmEventView::WorkspaceUpdated { updated_workspace: displayed },
        ).emit(WmEventView::WorkspaceUpdated { updated_workspace: instance })
    }
}

/// The state with a page displayed on one monitor.
pub open spec fn monitor_synced(
    state: StateView,
    configs: Seq<WorkspaceConfigView>,
    monitor: int,
    key: PageKeyView,
    focused_monitor: u128,
) -> (StateView, Result<bool, WmErrorView>) {
    match state.monitors[monitor].displayed() {
        None => (state, Err(WmErrorView::NoDisplayedWorkspace)),
        Some(at) => {
            let displayed = state.monitors[monitor].workspaces[at].id;
            let is_focused_monitor = state.monitors[monitor].id == focused_monitor;
            let (next, result) = with_page_instance(state, configs, monitor, key);
            match result {
                Err(error) => (next, Err(error)),
                Ok(instance) => if displayed == instance && !is_focused_monitor {
                    (next, Ok(false))
                } else {
                    (
                        switched(next, displayed, instance, is_focused_monitor),
                        Ok(displayed != instance),
                    )
                },
            }
        },
    }
}

/// Displays the page's workspace instance on a single monitor, synthesizing the instance if the
/// monitor doesn't have one yet.
///
/// Only the focused monitor receives global focus; other monitors have their displayed
/// workspace changed in place.
///
/// Returns `true` if the monitor's displayed workspace changed.
fn sync_monitor_to_page(
    monitor: usize,
    page_key: &PageKey,
    focused_monitor: u128,
    state: &mut WmState,
    config: &UserConfig,
) -> (result: Result<bool, WmError>)
    requires
        monitor < old(state).monitors@.len(),
    ensures
        final(state)@ == monitor_synced(
            old(state)@,
            config.value@.workspaces,
            monitor as int,
            page_key@,
            focused_monitor,
        ).0,
        outcome(result) == monitor_synced(
            old(state)@,
            config.value@.workspaces,
            monitor as int,
            page_key@,
            focused_monitor,
        ).1,
        keeps(old(state)@, final(state)@, 1),
{
    let ghost before = state@;
    proof {
        lemma_keeps_itself(before);
    }
    assert(state@.monitors[monitor as int] == state.monitors@[monitor as int]@);
    let displayed = match state.monitors[monitor].displayed_workspace() {
        Some(at) => {
            assert(state@.monitors[monitor as int].workspaces[at as int]
                == state.monitors@[monitor as int].workspaces@[at as int]@);
            state.monitors[monitor].workspaces[at].id
        },
        None => {
            return Err(WmError::NoDisplayedWorkspace);
        },
    };
    let is_focused_monitor = state.monitors[monitor].id == focused_monitor;
    let existing = match spanning_instance_on_monitor(&state.monitors[monitor], page_key) {
        Some(instance) => Some(instance.id),
        None => None,
    };
    let instance = match existing {
        Some(instance) => instance,
        None => match activate_spanning_instance(page_key, monitor, state, config) {
            Ok(instance) => instance,
            Err(error) => {
                return Err(error);
            },
        },
    };
    let ghost ready = state@;
    let is_already_displayed = displayed == instance;
    if is_already_displayed && !is_focused_monitor {
        return Ok(false);
    }
    // Focus the last-focused container within the instance, falling back to the workspace
    // itself when empty.

    let container_to_focus = state.container_to_focus(instance);
    state.set_focused_descendant(container_to_focus);
    let ghost focused = state@;
    proof {
        lemma_focus_keeps(ready, container_to_focus);
        lemma_keeps_transitive(before, ready, focused, 1, 0);
    }
    if is_focused_monitor {
        state.pending_sync.queue_focus_change();
    }
    if !is_already_displayed {
        state.pending_sync.queue_container_to_redraw(displayed);
        state.pending_sync.queue_container_to_redraw(instance);
        // Notify subscribers (e.g. status bars) of the display change on this monitor.
        // `FocusChanged` only covers the focused monitor.
        state.emit_event(WmEvent::WorkspaceUpdated { updated_workspace: displayed });
        state.emit_event(WmEvent::WorkspaceUpdated { updated_workspace: instance });
    }
    proof {
        lemma_unrelated_keeps(focused, state@);
        lemma_keeps_transitive(before, focused, state@, 1, 0);
    }
    Ok(!is_already_displayed)
}

/// The state with a page displayed on the first `count` monitors of an order, the last of them
/// first.
pub open spec fn monitors_synced(
    state: StateView,
    configs: Seq<WorkspaceConfigView>,
    order: Seq<u128>,
    count: nat,
    key: PageKeyView,
    focused_monitor: u128,
    changed: bool,
) -> (StateView, Result<bool, WmErrorView>)
    decreases count,
{
    if count == 0 {
        (state, Ok(changed))
    } else {
        match monitor_position(state.monitors, order[count - 1], 0) {
            None => monitors_synced(
                state,
                configs,
                order,
                (count - 1) as nat,
                key,
                focused_monitor,
                changed,
            ),
            Some(monitor) => {
                let (next, result) = monitor_synced(
                    state,
                    configs,
                    monitor,
                    key,
                    focused_monitor,
                );
                match result {
                    Ok(has_changed) => monitors_synced(
                        next,
                        configs,
                        order,
                        (count - 1) as nat,
                        key,
                        focused_monitor,
                        changed || has_changed,
                    ),
                    Err(error) => (next, Err(error)),
                }
            },
        }
    }
}

/// Displays the page on every monitor, from the least to the most recently focused one.
///
/// Returns `true` if the displayed workspace changed on any monitor.
fn display_page(
    page_key: &PageKey,
    focused_monitor: u128,
    state: &mut WmState,
    config: &UserConfig,
) -> (result: Result<bool, WmError>)
    ensures
        final(state)@ == monitors_synced(
            old(state)@,
            config.value@.workspaces,
            old(state)@.focus_order,
            old(state)@.focus_order.len(),
            page_key@,
            focused_monitor,
            false,
        ).0,
        outcome(result) == monitors_synced(
            old(state)@,
            config.value@.workspaces,
            old(state)@.focus_order,
            old(state)@.focus_order.len(),
            page_key@,
            focused_monitor,
            false,
        ).1,
        keeps(old(state)@, final(state)@, old(state)@.focus_order.len()),
{
    let ghost before = state@;
    let ghost configs = config.value@.workspaces;
    proof {
        lemma_keeps_itself(before);
    }
    // Iterate in reverse recency: focusing bumps each processed monitor to the front of the
    // focus order, so reverse iteration restores the original monitor focus order. The focused
    // monitor is processed last and re-focused explicitly.
    let order = copy_ids(&state.focus_order);
    let mut changed = false;
    let mut left: usize = order.len();
    while left > 0
        invariant
            left <= order@.len(),
            before == old(state)@,
            configs == config.value@.workspaces,
            order@ == before.focus_order,
            keeps(before, state@, (order@.len() - left) as nat),
            monitors_synced(
                before,
                configs,
                order@,
                order@.len(),
                page_key@,
                focused_monitor,
                false,
            ) == monitors_synced(
                state@,
                configs,
                order@,
                left as nat,
                page_key@,
                focused_monitor,
                changed,
            ),
        decreases left,
    {
        let ghost done = (order@.len() - left) as nat;
        let ghost current = state@;
        left = left - 1;
        match state.find_monitor(order[left]) {
            Some(monitor) => {
                let result = sync_monitor_to_page(
                    monitor,
                    page_key,
                    focused_monitor,
                    state,
                    config,
                );
                proof {
                    lemma_keeps_transitive(before, current, state@, done, 1);
                    lemma_keeps_more(before, state@, done + 1, order@.len());
                }
                match result {
                    Ok(has_changed) => {
                        changed = changed || has_changed;
                    },
                    Err(error) => {
                        return Err(error);
                    },
                }
            },
            None => {
                proof {
                    lemma_keeps_more(before, current, done, done + 1);
                }
            },
        }
    }
    Ok(changed)
}

fn copy_ids(ids: &Vec<u128>) -> (copy: Vec<u128>)
    ensures
        copy@ == ids@,
{
    let mut copy: Vec<u128> = Vec::new();
    let mut i: usize = 0;
    while i < ids.len()
        invariant
            i <= ids@.len(),
            copy@ == ids@.take(i as int),
        decreases ids@.len() - i,
    {
        copy.push(ids[i]);
        assert(ids@.take(i + 1) =~= ids@.take(i as int).push(ids@[i as int]));
        i = i + 1;
    }
    assert(ids@.take(i as int) =~= ids@);
    copy
}

/// Whether a workspace is empty, hidden and not kept alive.
pub open spec fn is_idle(state: StateView, workspace: WorkspaceView) -> bool {
    &&& !workspace.config.keep_alive
    &&& !state.has_children(workspace.id)
    &&& !state.is_displayed(workspace.id)
}

/// Identifiers of the idle ones among the first `count` of the given workspaces.
pub open spec fn idle_ids(state: StateView, workspaces: Seq<WorkspaceView>, count: nat) -> Seq<
    u128,
>
    decreases count,
{
    if count == 0 {
        Seq::empty()
    } else {
        let rest = idle_ids(state, workspaces, (count - 1) as nat);
        if is_idle(state, workspaces[count - 1]) {
            rest.push(workspaces[count - 1].id)
        } else {
            rest
        }
    }
}

/// The state without the given workspaces from `from` on.
pub open spec fn all_deactivated(state: StateView, ids: Seq<u128>, from: int) -> (
    StateView,
    Result<(), WmErrorView>,
)
    decreases ids.len() - from,
{
    if from < 0 || from >= ids.len() {
        (state, Ok(()))
    } else {
        let (next, result) = state.deactivate(ids[from]);
        match result {
            Ok(_) => all_deactivated(next, ids, from + 1),
            Err(error) => (next, Err(error)),
        }
    }
}

/// The state without its idle workspaces.
pub open spec fn idle_deactivated(state: StateView) -> (StateView, Result<(), WmErrorView>) {
    all_deactivated(
        state,
        idle_ids(state, state.workspaces(), state.workspaces().len()),
        0,
    )
}

/// Whether the monitors display the same workspaces.
pub open spec fn displays_same(before: StateView, after: StateView) -> bool {
    before.monitors.len() == after.monitors.len() && forall|m: int, w: u128|
        0 <= m < before.monitors.len() ==> (#[trigger] shows(after.monitors[m], w) <==> shows(
            before.monitors[m],
            w,
        ))
}

/// A hidden workspace stays hidden as long as the monitors display the same.
proof fn lemma_stays_hidden(before: StateView, after: StateView, id: u128)
    requires
        before.is_valid(),
        displays_same(before, after),
        !before.is_displayed(id),
    ensures
        !after.is_displayed(id),
{
    if after.is_displayed(id) {
        crate::wm_state::lemma_located(after.monitors, id, 0);
        let (m, _) = after.locate(id)->0;
        assert(shows(before.monitors[m], id));
        let at = before.monitors[m].displayed()->0;
        crate::monitor::lemma_workspace_position(
            before.monitors[m].workspaces,
            before.monitors[m].focus_order[0],
            0,
        );
        crate::invariants::lemma_located_at(before.monitors, m, at);
    }
}

/// Idle workspaces hold nothing, and aren't displayed.
proof fn lemma_idle_ids(state: StateView, workspaces: Seq<WorkspaceView>, count: nat)
    ensures
        forall|k: int|
            0 <= k < idle_ids(state, workspaces, count).len() ==> !state.has_children(
                #[trigger] idle_ids(state, workspaces, count)[k],
            ) && !state.is_displayed(idle_ids(state, workspaces, count)[k]),
    decreases count,
{
    if count > 0 {
        let rest = idle_ids(state, workspaces, (count - 1) as nat);
        let now = idle_ids(state, workspaces, count);
        lemma_idle_ids(state, workspaces, (count - 1) as nat);
        assert forall|k: int| 0 <= k < now.len() implies !state.has_children(
            #[trigger] now[k],
        ) && !state.is_displayed(now[k]) by {
            if k < rest.len() {
                assert(now[k] == rest[k]);
            }
        }
    }
}

/// Destroys all empty hidden workspaces. A page switch can hide up to one emptied workspace per
/// monitor, so this intentionally destroys more than the single workspace that a regular focus
/// switch does.
fn deactivate_idle_workspaces(state: &mut WmState) -> (result: Result<(), WmError>)
    ensures
        final(state)@ == idle_deactivated(old(state)@).0,
        outcome(result) == idle_deactivated(old(state)@).1,
        keeps(old(state)@, final(state)@, 0),
        forall|key: PageKeyView|
            old(state)@.is_valid() && #[trigger] displays_page_everywhere(old(state)@, key)
                ==> displays_page_everywhere(final(state)@, key),
        forall|group: Seq<char>|
            old(state)@.is_valid() && #[trigger] is_settled(old(state)@.monitors, group)
                ==> is_settled(final(state)@.monitors, group),
        old(state)@.is_valid() ==> final(state)@.focused_monitor()
            == old(state)@.focused_monitor(),
{
    let ghost before = state@;
    let workspaces = state.workspaces();
    let ghost listed = borrowed_workspaces(workspaces@);
    let mut ids: Vec<u128> = Vec::new();
    let mut i: usize = 0;
    while i < workspaces.len()
        invariant
            i <= workspaces@.len(),
            listed == borrowed_workspaces(workspaces@),
            ids@ == idle_ids(state@, listed, i as nat),
        decreases workspaces@.len() - i,
    {
        let workspace = workspaces[i];
        assert(listed[i as int] == workspace@);
        if !workspace.config.keep_alive && !state.has_children(workspace.id)
            && !state.is_displayed(workspace.id) {
            ids.push(workspace.id);
        }
        i = i + 1;
    }
    proof {
        lemma_keeps_itself(before);
        lemma_idle_ids(before, listed, listed.len());
    }
    let mut k: usize = 0;
    while k < ids.len()
        invariant
            k <= ids@.len(),
            before == old(state)@,
            keeps(before, state@, 0),
            state@.nodes == before.nodes,
            forall|j: int| 0 <= j < ids@.len() ==> !before.has_children(#[trigger] ids@[j]),
            forall|j: int| 0 <= j < ids@.len() ==> !before.is_displayed(#[trigger] ids@[j]),
            before.is_valid() ==> displays_same(before, state@) && state@.focused_monitor()
                == before.focused_monitor(),
            forall|key: PageKeyView|
                before.is_valid() && #[trigger] displays_page_everywhere(before, key)
                    ==> displays_page_everywhere(state@, key),
            forall|group: Seq<char>|
                before.is_valid() && #[trigger] is_settled(before.monitors, group) ==> is_settled(
                    state@.monitors,
                    group,
                ),
            all_deactivated(before, ids@, 0) == all_deactivated(state@, ids@, k as int),
            ids@ == idle_ids(before, before.workspaces(), before.workspaces().len()),
        decreases ids@.len() - k,
    {
        let ghost current = state@;
        let result = state.deactivate_workspace(ids[k]);
        proof {
            assert(!current.has_children(ids@[k as int]));
            lemma_deactivate_keeps(current, ids@[k as int]);
            lemma_keeps_transitive(before, current, state@, 0, 0);
            if before.is_valid() {
                lemma_kept(before, current, 0);
                lemma_kept_valid(before, current, 0);
                lemma_stays_hidden(before, current, ids@[k as int]);
                lemma_deactivate_keeps_focus(current, ids@[k as int]);
                assert forall|key: PageKeyView| #[trigger]
                    displays_page_everywhere(before, key) implies displays_page_everywhere(
                    state@,
                    key,
                ) by {
                    lemma_deactivate_keeps_page(current, ids@[k as int], key);
                }
                assert forall|group: Seq<char>| #[trigger]
                    is_settled(before.monitors, group) implies is_settled(
                    state@.monitors,
                    group,
                ) by {
                    lemma_deactivate_stays_settled(current, ids@[k as int], group);
                }
            }
        }
        match result {
            Ok(_) => {},
            Err(error) => {
                return Err(error);
            },
        }
        k = k + 1;
    }
    Ok(())
}

/// The state with a page displayed on every monitor. After a change, idle workspaces are
/// destroyed and pages renumbered.
pub open spec fn page_synced(
    state: StateView,
    configs: Seq<WorkspaceConfigView>,
    key: PageKeyView,
) -> (StateView, Result<bool, WmErrorView>) {
    match state.focused_monitor() {
        None => (state, Err(WmErrorView::NoFocusedMonitor)),
        Some(focused) => {
            let (shown, showing) = monitors_synced(
                state,
                configs,
                state.focus_order,
                state.focus_order.len(),
                key,
                state.monitors[focused].id,
                false,
            );
            match showing {
                Ok(true) => {
                    let (tidied, tidying) = idle_deactivated(shown);
                    match tidying {
                        Ok(_) => {
                            let (paged, paging) = repaged(tidied, configs);
                            match paging {
                                Ok(_) => (paged, Ok(true)),
                                Err(error) => (paged, Err(error)),
                            }
                        },
                        Err(error) => (tidied, Err(error)),
                    }
                },
                _ => (shown, showing),
            }
        },
    }
}

/// Whether displaying a page leaves nothing to be distributed anew, or each displayed instance is
/// assigned its monitor and page again.
pub open spec fn is_undisturbed_switch(
    state: StateView,
    configs: Seq<WorkspaceConfigView>,
    key: PageKeyView,
) -> bool {
    match state.focused_monitor() {
        None => false,
        Some(focused) => {
            let (shown, showing) = monitors_synced(
                state,
                configs,
                state.focus_order,
                state.focus_order.len(),
                key,
                state.monitors[focused].id,
                false,
            );
            let tidied = idle_deactivated(shown).0;
            showing == Ok::<bool, WmErrorView>(true) ==> repaged(tidied, configs).1 == Ok::<
                bool,
                WmErrorView,
            >(false) || is_reassigned(tidied, configs, key)
        },
    }
}

/// Whether a switch displays the first page of a group that is settled. There is nothing to settle
/// in a group that isn't declared.
pub open spec fn is_settled_switch(
    state: StateView,
    configs: Seq<WorkspaceConfigView>,
    key: PageKeyView,
) -> bool {
    key.page == 1 && (spanning_config(configs, key.group, 0) is Some ==> is_settled(
        state.monitors,
        key.group,
    ))
}

/// Whether every monitor displays a page after the switch to it, with focus where it was, as long
/// as the displayed instances aren't assigned elsewhere in the end. Those on the first page of a
/// settled group never are.
#[verifier::opaque]
pub open spec fn displays_synced_page(
    before: StateView,
    after: StateView,
    configs: Seq<WorkspaceConfigView>,
    key: PageKeyView,
) -> bool {
    before.is_valid() && before.next_id + before.focus_order.len() + before.monitors.len()
        <= u128::MAX && key.page >= 1 && (is_undisturbed_switch(before, configs, key)
        || is_settled_switch(before, configs, key)) ==> switches_to(before, after, key)
}

/// Displays a page of a spanning workspace group on every monitor, synthesizing missing
/// instances, and focuses its instance on the focused monitor.
///
/// Unlike `focus_spanning_workspace`, this has no toggle-on-refocus, recent-workspace or cursor
/// side effects, so it's safe to call while handling monitor layout changes.
///
/// Returns `true` if the displayed workspace changed on any monitor.
pub fn sync_monitors_to_page(page_key: &PageKey, state: &mut WmState, config: &UserConfig) -> (
    result: Result<bool, WmError>)
    requires
        placements_fit(old(state)@),
    ensures
        final(state)@ == page_synced(old(state)@, config.value@.workspaces, page_key@).0,
        outcome(result) == page_synced(old(state)@, config.value@.workspaces, page_key@).1,
        keeps(
            old(state)@,
            final(state)@,
            old(state)@.focus_order.len() + old(state)@.monitors.len(),
        ),
        result is Ok ==> displays_synced_page(
            old(state)@,
            final(state)@,
            config.value@.workspaces,
            page_key@,
        ),
{
    let ghost before = state@;
    let ghost shown_count = before.focus_order.len();
    let ghost total = before.focus_order.len() + before.monitors.len();
    proof {
        lemma_keeps_itself(before);
    }
    let focused_monitor = match state.focused_monitor() {
        Some(focused) => {
            assert(state@.monitors[focused as int] == state.monitors@[focused as int]@);
            state.monitors[focused].id
        },
        None => {
            return Err(WmError::NoFocusedMonitor);
        },
    };
    let showing = display_page(page_key, focused_monitor, state, config);
    let ghost shown = state@;
    proof {
        lemma_keeps_more(before, shown, shown_count, total);
        lemma_kept(before, shown, shown_count);
    }
    let ghost is_owed = before.is_valid() && before.next_id + total <= u128::MAX && page_key.page
        >= 1;
    let ghost configs = config.value@.workspaces;
    let ghost group = page_key@.group;
    let ghost is_declared = spanning_config(configs, group, 0) is Some;
    let ghost is_first = is_owed && is_settled_switch(before, configs, page_key@);
    proof {
        reveal(displays_synced_page);
        if is_first && is_declared && showing is Ok {
            assert(page_key@ == PageKeyView::first(group));
            lemma_display_stays_settled(
                before,
                configs,
                before.focus_order,
                shown_count,
                group,
                focused_monitor,
                false,
            );
        }
        if is_owed && showing is Ok {
            law_page_is_displayed_on_every_monitor(before, configs, page_key@);
            lemma_kept_valid(before, shown, shown_count);
            assert(switches_to(before, shown, page_key@));
        }
    }
    match showing {
        Ok(true) => {},
        _ => {
            return showing;
        },
    }
    let tidying = deactivate_idle_workspaces(state);
    let ghost tidied = state@;
    proof {
        lemma_keeps_transitive(before, shown, tidied, shown_count, 0);
        lemma_keeps_more(before, tidied, shown_count, total);
        lemma_kept(before, tidied, shown_count);
    }
    if let Err(error) = tidying {
        return Err(error);
    }
    // Close the gaps in page numbering left by destroyed instances.

    let paging = repage_spanning_desktops(state, config);
    proof {
        lemma_keeps_transitive(before, tidied, state@, shown_count, before.monitors.len());
        if is_owed && paging is Ok {
            lemma_kept_valid(before, tidied, shown_count);
            assert(switches_to(before, tidied, page_key@));
            if paging == Ok::<bool, WmError>(false) {
                lemma_kept_valid(before, state@, total);
                lemma_same_but_homes_keeps_page(tidied, state@, page_key@);
                lemma_same_focus(tidied, state@);
            } else if is_first {
                assert(page_key@ == PageKeyView::first(group));
                assert(tidied.monitors.len() > 0);
                assert(settles_group(tidied, state@, configs, group));
                reveal(settles_group);
            } else if is_undisturbed_switch(before, configs, page_key@) {
                assert(keeps_page(tidied, state@, configs, page_key@));
                reveal(keeps_page);
            }
        }
    }
    match paging {
        Ok(_) => Ok(true),
        Err(error) => Err(error),
    }
}

/// Name by which the focused workspace is known to the user.
pub open spec fn origin_name(state: StateView, place: (int, int)) -> Seq<char> {
    state.workspace(place).config.logical_name()
}

/// The state with a page focused.
pub open spec fn page_shown(
    state: StateView,
    configs: Seq<WorkspaceConfigView>,
    key: PageKeyView,
    place: (int, int),
) -> (StateView, Result<(), WmErrorView>) {
    let origin = origin_name(state, place);
    let (paged, paging) = repaged(state, configs);
    match paging {
        Ok(_) => {
            let (shown, showing) = page_synced(paged, configs, key);
            match showing {
                Ok(true) => {
                    let named = StateView {
                        recent_workspace_name: if origin != key.label() {
                            Some(origin)
                        } else {
                            shown.recent_workspace_name
                        },
                        ..shown
                    };
                    (named.sync(named.pending_sync.cursor_jump()), Ok(()))
                },
                Ok(false) => (shown, Ok(())),
                Err(error) => (shown, Err(error)),
            }
        },
        Err(error) => (paged, Err(error)),
    }
}

/// Most workspaces that focusing a page can create.
pub open spec fn page_cost(state: StateView) -> nat {
    state.monitors.len() + state.focus_order.len() + state.monitors.len()
}

/// Whether every monitor displays a page, and focus is on the monitor that had it after the
/// instances were distributed. That is the monitor that had it before, unless its workspace was
/// moved from there.
pub open spec fn page_switched(
    before: StateView,
    after: StateView,
    configs: Seq<WorkspaceConfigView>,
    key: PageKeyView,
) -> bool {
    let paged = repaged(before, configs).0;
    &&& switches_to(paged, after, key)
    &&& before.focused_workspace() matches Some(place) ==> {
        let host = found(paged.monitors, before.workspace(place).id);
        host matches Some((monitor, _)) ==> after.focused_monitor() == Some(monitor) && (monitor
            == place.0 ==> after.focused_monitor() == before.focused_monitor())
    }
}

/// Whether a switch to a page is to display it on every monitor: whether the displayed instances
/// aren't assigned elsewhere in the end, or the page is the first one of a group that is settled,
/// or of which no two homes match the same monitor.
pub open spec fn is_lasting_switch(
    state: StateView,
    configs: Seq<WorkspaceConfigView>,
    key: PageKeyView,
) -> bool {
    ||| is_undisturbed_switch(repaged(state, configs).0, configs, key)
    ||| {
        &&& key.page == 1
        &&& regular_configs_join_first_page(configs, key.group)
        &&& homes_are_unrivalled(state.monitors, key.group) || is_settled(
            state.monitors,
            key.group,
        )
    }
}

/// Whether every monitor displays a page after it was focused, with focus where it was.
#[verifier::opaque]
pub open spec fn displays_focused_page(
    before: StateView,
    after: StateView,
    configs: Seq<WorkspaceConfigView>,
    key: PageKeyView,
) -> bool {
    before.is_valid() && before.next_id + page_cost(before) <= u128::MAX && key.page >= 1
        && is_lasting_switch(before, configs, key) ==> page_switched(before, after, configs, key)
}

proof fn lemma_page_switched(
    before: StateView,
    after: StateView,
    configs: Seq<WorkspaceConfigView>,
    key: PageKeyView,
)
    requires
        focus_follows(before, repaged(before, configs).0),
        switches_to(repaged(before, configs).0, after, key),
    ensures
        page_switched(before, after, configs, key),
{
}

/// Displays a page on every monitor, after instances of disconnected monitors took any free
/// slot of the page, and remembers where focus came from.
pub(crate) fn show_page(
    page_key: &PageKey,
    origin: (usize, usize),
    state: &mut WmState,
    config: &UserConfig,
) -> (result: Result<(), WmError>)
    requires
        placements_fit(old(state)@),
        crate::repage_spanning_desktops::has_place(old(state)@, origin.0, origin.1),
    ensures
        final(state)@ == page_shown(
            old(state)@,
            config.value@.workspaces,
            page_key@,
            (origin.0 as int, origin.1 as int),
        ).0,
        outcome(result) == page_shown(
            old(state)@,
            config.value@.workspaces,
            page_key@,
            (origin.0 as int, origin.1 as int),
        ).1,
        keeps(old(state)@, final(state)@, page_cost(old(state)@)),
        result is Ok ==> displays_focused_page(
            old(state)@,
            final(state)@,
            config.value@.workspaces,
            page_key@,
        ),
{
    let ghost before = state@;
    let ghost configs = config.value@.workspaces;
    proof {
        lemma_keeps_itself(before);
        crate::repage_spanning_desktops::lemma_has_place(*state, origin.0, origin.1);
    }
    let origin_name = state.monitors[origin.0].workspaces[origin.1].config.logical_name();
    let target_name = page_key.to_string();
    // Let instances of disconnected monitors take any free slot of the page first, so that no
    // empty instance gets synthesized in their place.
    let paging = repage_spanning_desktops(state, config);
    let ghost paged = state@;
    proof {
        lemma_kept(before, paged, before.monitors.len());
        lemma_keeps_more(before, paged, before.monitors.len(), page_cost(before));
    }
    if let Err(error) = paging {
        return Err(error);
    }
    // When already on the page, this still re-syncs monitors that drifted (e.g. after focusing
    // a single instance). All operations are no-ops when consistent.
    let showing = sync_monitors_to_page(page_key, state, config);
    let ghost shown = state@;
    proof {
        lemma_keeps_transitive(
            before,
            paged,
            shown,
            before.monitors.len(),
            paged.focus_order.len() + paged.monitors.len(),
        );
        reveal(displays_focused_page);
        if showing is Ok && before.is_valid() && before.next_id + page_cost(before) <= u128::MAX
            && page_key.page >= 1 && is_lasting_switch(before, configs, page_key@) {
            lemma_kept_valid(before, paged, before.monitors.len());
            assert(before.monitors.len() > 0);
            assert(settles_group(before, paged, configs, page_key@.group));
            reveal(settles_group);
            reveal(displays_synced_page);
            assert(focus_follows(before, paged));
            assert(switches_to(paged, shown, page_key@));
            lemma_page_switched(before, shown, configs, page_key@);
        }
    }
    let has_display_changes = match showing {
        Ok(has_display_changes) => has_display_changes,
        Err(error) => {
            return Err(error);
        },
    };
    if has_display_changes {
        if origin_name != target_name {
            state.recent_workspace_name = Some(origin_name);
        }
        state.pending_sync.queue_cursor_jump();
        proof {
            lemma_unrelated_keeps(shown, state@);
            lemma_keeps_transitive(before, shown, state@, page_cost(before), 0);
        }
    }
    Ok(())
}

/// Name of the workspace to go back to, if focusing the page does so because it is focused
/// already.
pub open spec fn toggle_name(
    state: StateView,
    toggles: bool,
    key: PageKeyView,
    place: (int, int),
) -> Option<Seq<char>> {
    if toggles && origin_name(state, place) == key.label() {
        match state.recent_workspace_name {
            Some(recent) => if recent != key.label() {
                Some(recent)
            } else {
                None
            },
            None => None,
        }
    } else {
        None
    }
}

/// The state with a page focused, or the recent workspace if the page is focused already.
pub open spec fn page_focused(
    state: StateView,
    configs: Seq<WorkspaceConfigView>,
    toggles: bool,
    key: PageKeyView,
) -> (StateView, Result<(), WmErrorView>) {
    match state.focused_workspace() {
        None => (state, Err(WmErrorView::NoFocusedWorkspace)),
        Some(place) => match toggle_name(state, toggles, key, place) {
            None => page_shown(state, configs, key, place),
            Some(recent) => match state.resolve_target(configs, recent) {
                Some(recent_key) => page_shown(state, configs, recent_key, place),
                None => regular_focused(
                    state,
                    configs,
                    toggles,
                    WorkspaceTargetView::Name(recent),
                    place,
                ),
            },
        },
    }
}

/// Page that focusing a page leads to, if any: the page itself, or that of the recent workspace.
pub open spec fn focused_page_key(
    state: StateView,
    configs: Seq<WorkspaceConfigView>,
    toggles: bool,
    key: PageKeyView,
) -> Option<PageKeyView> {
    match state.focused_workspace() {
        None => None,
        Some(place) => match toggle_name(state, toggles, key, place) {
            None => Some(key),
            Some(recent) => state.resolve_target(configs, recent),
        },
    }
}

/// Whether going back to the recent workspace leads away from the page. The recent name must
/// not stand for the very page that is focused, or going back would never end.
pub open spec fn leads_away(
    state: StateView,
    configs: Seq<WorkspaceConfigView>,
    toggles: bool,
    key: PageKeyView,
) -> bool {
    match state.focused_workspace() {
        None => true,
        Some(place) => match toggle_name(state, toggles, key, place) {
            None => true,
            Some(recent) => match state.resolve_target(configs, recent) {
                Some(recent_key) => recent_key.label() != key.label(),
                None => true,
            },
        },
    }
}

/// Whether going back to the recent workspace leads away from the page, should focusing the
/// page do so.
pub fn can_focus_page(page_key: &PageKey, state: &WmState, config: &UserConfig) -> (can: bool)
    ensures
        can == leads_away(
            state@,
            config.value@.workspaces,
            config.value.general.toggle_workspace_on_refocus,
            page_key@,
        ),
{
    let (monitor, at) = match state.focused_workspace() {
        Some(place) => place,
        None => {
            return true;
        },
    };
    proof {
        assert(state@.monitors[monitor as int] == state.monitors@[monitor as int]@);
        crate::repage_spanning_desktops::lemma_has_place(*state, monitor, at);
    }
    let origin_name = state.monitors[monitor].workspaces[at].config.logical_name();
    let target_name = page_key.to_string();
    if origin_name != target_name || !config.value.general.toggle_workspace_on_refocus {
        return true;
    }
    match &state.recent_workspace_name {
        Some(recent_name) => if *recent_name != target_name {
            match state.resolve_spanning_target(recent_name.as_str(), config) {
                Some(recent_key) => recent_key.to_string() != target_name,
                None => true,
            }
        } else {
            true
        },
        None => true,
    }
}

/// Focuses a page of a spanning ("virtual desktop") workspace group, switching the displayed
/// workspace on every monitor at once.
///
/// Monitors without an instance of the page get one synthesized on demand. The monitor that
/// currently has focus keeps focus. All changes accumulate into a single pending sync, so the
/// switch is applied in one platform pass.
pub fn focus_spanning_workspace(page_key: &PageKey, state: &mut WmState, config: &UserConfig) -> (
    result: Result<(), WmError>)
    requires
        placements_fit(old(state)@),
        leads_away(
            old(state)@,
            config.value@.workspaces,
            config.value.general.toggle_workspace_on_refocus,
            page_key@,
        ),
    ensures
        final(state)@ == page_focused(
            old(state)@,
            config.value@.workspaces,
            config.value.general.toggle_workspace_on_refocus,
            page_key@,
        ).0,
        outcome(result) == page_focused(
            old(state)@,
            config.value@.workspaces,
            config.value.general.toggle_workspace_on_refocus,
            page_key@,
        ).1,
        keeps(old(state)@, final(state)@, page_cost(old(state)@) + 1),
        result is Ok ==> (focused_page_key(
            old(state)@,
            config.value@.workspaces,
            config.value.general.toggle_workspace_on_refocus,
            page_key@,
        ) matches Some(key) ==> displays_focused_page(
            old(state)@,
            final(state)@,
            config.value@.workspaces,
            key,
        )),
{
    proof {
        lemma_keeps_itself(state@);
    }
    let ghost before = state@;
    let (monitor, at) = match state.focused_workspace() {
        Some(place) => place,
        None => {
            return Err(WmError::NoFocusedWorkspace);
        },
    };
    proof {
        assert(state@.monitors[monitor as int] == state.monitors@[monitor as int]@);
        crate::repage_spanning_desktops::lemma_has_place(*state, monitor, at);
    }
    let origin_name = state.monitors[monitor].workspaces[at].config.logical_name();
    let target_name = page_key.to_string();
    if origin_name == target_name && config.value.general.toggle_workspace_on_refocus {
        let recent = crate::text::clone_text(&state.recent_workspace_name);
        if let Some(recent_name) = recent {
            if recent_name != target_name {
                return match state.resolve_spanning_target(recent_name.as_str(), config) {
                    Some(recent_key) => {
                        let result = show_page(&recent_key, (monitor, at), state, config);
                        proof {
                            let cost = page_cost(before);
                            lemma_keeps_more(before, state@, cost, cost + 1);
                        }
                        result
                    },
                    None => {
                        let target = WorkspaceTarget::Name(recent_name);
                        let result = focus_regular_workspace(
                            &target,
                            (monitor, at),
                            state,
                            config,
                        );
                        proof {
                            lemma_keeps_more(before, state@, 1, page_cost(before) + 1);
                        }
                        result
                    },
                };
            }
        }
    }
    let result = show_page(page_key, (monitor, at), state, config);
    proof {
        lemma_keeps_more(before, state@, page_cost(before), page_cost(before) + 1);
    }
    result
}

} // verus!
