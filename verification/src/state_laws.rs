//! What holds of the parts of the state, and of the steps that all operations are made of.
use vstd::prelude::*;

use crate::container::{native_position, node_position, ContainerRef, NodeContentView, NodeView};
use crate::focus_order::{id_position, moved_to_front, without};
use crate::invariants::{is_valid_monitor, lemma_located_at};
use crate::monitor::{lemma_workspace_position, MonitorView};
use crate::page_key::{parsed_label, split_label, PageKeyView};
use crate::pending_sync::PendingSyncView;
use crate::rule_laws::lemma_pushed;
use crate::user_config::spanning_config;
use crate::wm_error::WmErrorView;
use crate::wm_event::WmEventView;
use crate::wm_state::{
    attached, is_group_name, lemma_located, named, natives_of, recent_window, StateView,
};
use crate::workspace::WorkspaceView;
use crate::workspace_config::WorkspaceConfigView;

verus! {

proof fn lemma_id_at(ids: Seq<u128>, at: int, from: int)
    requires
        0 <= from <= at < ids.len(),
        forall|i: int| from <= i < at ==> #[trigger] ids[i] != ids[at],
    ensures
        id_position(ids, ids[at], from) == Some(at),
    decreases at - from,
{
    if from < at {
        assert(ids[from] != ids[at]);
        lemma_id_at(ids, at, from + 1);
    }
}

proof fn lemma_id_nowhere(ids: Seq<u128>, id: u128, from: int)
    requires
        0 <= from,
        !ids.contains(id),
    ensures
        id_position(ids, id, from) is None,
    decreases ids.len() - from,
{
    if from < ids.len() {
        assert(ids[from] != id);
        lemma_id_nowhere(ids, id, from + 1);
    }
}

/// Focusing something puts it first, and leaves all others in the order in which they were
/// focused. Forgetting something leaves all others in that order, too.
pub proof fn law_focused_comes_first(ids: Seq<u128>, at: int)
    requires
        0 <= at < ids.len(),
        forall|i: int| 0 <= i < at ==> #[trigger] ids[i] != ids[at],
    ensures
        ({
            let next = moved_to_front(ids, ids[at]);
            &&& next.len() == ids.len()
            &&& next[0] == ids[at]
            &&& forall|i: int| 0 <= i < at ==> next[i + 1] == #[trigger] ids[i]
            &&& forall|i: int| at < i < ids.len() ==> #[trigger] next[i] == ids[i]
        }),
        ({
            let next = without(ids, ids[at]);
            &&& next.len() == ids.len() - 1
            &&& forall|i: int| 0 <= i < at ==> #[trigger] next[i] == ids[i]
            &&& forall|i: int| at < i < ids.len() ==> next[i - 1] == #[trigger] ids[i]
        }),
{
    lemma_id_at(ids, at, 0);
}

/// What isn't part of an order is neither put first nor forgotten.
pub proof fn law_unknown_stays_unknown(ids: Seq<u128>, id: u128)
    requires
        !ids.contains(id),
    ensures
        moved_to_front(ids, id) == ids,
        without(ids, id) == ids,
{
    lemma_id_nowhere(ids, id, 0);
}

/// A monitor displays the workspace that was focused on it last.
pub proof fn law_monitor_displays_what_was_focused_last(monitor: MonitorView)
    ensures
        match monitor.displayed() {
            Some(a) => {
                &&& 0 <= a < monitor.workspaces.len()
                &&& monitor.focus_order.len() > 0
                &&& monitor.workspaces[a].id == monitor.focus_order[0]
                &&& forall|b: int|
                    0 <= b < a ==> (#[trigger] monitor.workspaces[b]).id != monitor.focus_order[0]
            },
            None => monitor.focus_order.len() == 0 || forall|b: int|
                0 <= b < monitor.workspaces.len() ==> (#[trigger] monitor.workspaces[b]).id
                    != monitor.focus_order[0],
        },
{
    if monitor.focus_order.len() > 0 {
        lemma_workspace_position(monitor.workspaces, monitor.focus_order[0], 0);
    }
}

/// A workspace that is attached to a monitor is listed last and was focused least recently, so
/// that it is hidden behind all others, and knows its monitor.
pub proof fn law_attached_workspace_is_behind_all_others(
    monitor: MonitorView,
    workspace: WorkspaceView,
)
    ensures
        ({
            let next = monitor.attach(workspace);
            let count = monitor.workspaces.len() as int;
            &&& next == (MonitorView {
                workspaces: next.workspaces,
                focus_order: next.focus_order,
                ..monitor
            })
            &&& next.workspaces.len() == count + 1
            &&& next.workspaces[count] == (WorkspaceView {
                monitor: Some(monitor.id),
                ..workspace
            })
            &&& forall|a: int| 0 <= a < count ==> #[trigger] next.workspaces[a]
                == monitor.workspaces[a]
            &&& next.focus_order.len() == monitor.focus_order.len() + 1
            &&& next.focus_order[monitor.focus_order.len() as int] == workspace.id
            &&& forall|k: int|
                0 <= k < monitor.focus_order.len() ==> #[trigger] next.focus_order[k]
                    == monitor.focus_order[k]
        }),
{
}

/// Where a node is found by its identifier: at the first one that has it.
pub proof fn law_first_node_with_an_identifier_is_found(
    nodes: Seq<NodeView>,
    id: u128,
    from: int,
)
    requires
        0 <= from,
    ensures
        match node_position(nodes, id, from) {
            Some(at) => {
                &&& from <= at < nodes.len()
                &&& nodes[at].id == id
                &&& forall|i: int| from <= i < at ==> (#[trigger] nodes[i]).id != id
            },
            None => forall|i: int| from <= i < nodes.len() ==> (#[trigger] nodes[i]).id != id,
        },
    decreases nodes.len() - from,
{
    if from < nodes.len() {
        law_first_node_with_an_identifier_is_found(nodes, id, from + 1);
    }
}

/// Where a window is found by its handle: at the first one that has it.
pub proof fn law_first_window_with_a_handle_is_found(
    nodes: Seq<NodeView>,
    native: isize,
    from: int,
)
    requires
        0 <= from,
    ensures
        match native_position(nodes, native, from) {
            Some(at) => {
                &&& from <= at < nodes.len()
                &&& nodes[at].content matches NodeContentView::Window(window) && window.native
                    == native
                &&& forall|i: int|
                    from <= i < at ==> !((
                    #[trigger] nodes[i]).content matches NodeContentView::Window(window)
                        && window.native == native)
            },
            None => forall|i: int|
                from <= i < nodes.len() ==> !((
                #[trigger] nodes[i]).content matches NodeContentView::Window(window)
                    && window.native == native),
        },
    decreases nodes.len() - from,
{
    if from < nodes.len() {
        law_first_window_with_a_handle_is_found(nodes, native, from + 1);
    }
}

/// The handles of all windows are listed, in the order in which the windows are managed.
pub proof fn law_every_window_has_its_handle_listed(
    nodes: Seq<NodeView>,
    count: nat,
) -> (origins: Seq<int>)
    requires
        count <= nodes.len(),
    ensures
        origins.len() == natives_of(nodes, count).len(),
        forall|k: int, l: int|
            0 <= k < l < origins.len() ==> (#[trigger] origins[k]) < (#[trigger] origins[l]),
        forall|k: int|
            0 <= k < origins.len() ==> 0 <= #[trigger] origins[k] < count && (
            nodes[origins[k]].content matches NodeContentView::Window(window) && natives_of(
                nodes,
                count,
            )[k] == window.native),
        forall|i: int|
            0 <= i < count ==> (#[trigger] origins.contains(i) <==> nodes[i].content is Window),
    decreases count,
{
    if count == 0 {
        Seq::empty()
    } else {
        let last = count - 1;
        let rest = law_every_window_has_its_handle_listed(nodes, last as nat);
        if nodes[last].content is Window {
            lemma_pushed(rest, last);
            rest.push(last)
        } else {
            assert(!rest.contains(last));
            rest
        }
    }
}

/// A workspace holds something if and only if a node is in it.
pub proof fn law_workspace_holds_its_nodes(state: StateView, workspace: u128)
    ensures
        state.has_children(workspace) <==> exists|i: int|
            0 <= i < state.nodes.len() && (#[trigger] state.nodes[i]).workspace == workspace,
{
}

/// A workspace is displayed if and only if it was focused last on its monitor.
pub proof fn law_displayed_workspace_was_focused_last(state: StateView, m: int, a: int)
    requires
        state.is_valid(),
        0 <= m < state.monitors.len(),
        0 <= a < state.monitors[m].workspaces.len(),
    ensures
        state.locate(state.monitors[m].workspaces[a].id) == Some((m, a)),
        state.is_displayed(state.monitors[m].workspaces[a].id) <==> state.monitors[m].focus_order[0]
            == state.monitors[m].workspaces[a].id,
        state.monitors[m].displayed() is Some,
{
    let monitor = state.monitors[m];
    let id = monitor.workspaces[a].id;
    lemma_located_at(state.monitors, m, a);
    assert(is_valid_monitor(monitor));
    assert(monitor.focus_order.contains(id));
    assert(monitor.position(monitor.focus_order[0]) is Some);
    lemma_workspace_position(monitor.workspaces, monitor.focus_order[0], 0);
}

/// What is focused along with a workspace: the window of it that was focused most recently, or
/// the workspace itself if it has none.
pub proof fn law_most_recent_window_is_focused(
    order: Seq<u128>,
    nodes: Seq<NodeView>,
    workspace: u128,
    from: int,
)
    requires
        0 <= from,
        forall|i: int, j: int|
            0 <= i < j < nodes.len() ==> (#[trigger] nodes[i]).id != (#[trigger] nodes[j]).id,
    ensures
        match recent_window(order, nodes, workspace, from) {
            Some(id) => exists|k: int, at: int|
                {
                    &&& from <= k < order.len()
                    &&& (#[trigger] order[k]) == id
                    &&& 0 <= at < nodes.len()
                    &&& (#[trigger] nodes[at]).id == id
                    &&& nodes[at].workspace == workspace
                    &&& forall|j: int, i: int|
                        from <= j < k && 0 <= i < nodes.len() && (#[trigger] nodes[i]).id
                            == #[trigger] order[j] ==> nodes[i].workspace != workspace
                },
            None => forall|j: int, i: int|
                from <= j < order.len() && 0 <= i < nodes.len() && (#[trigger] nodes[i]).id
                    == #[trigger] order[j] ==> nodes[i].workspace != workspace,
        },
    decreases order.len() - from,
{
    if from < order.len() {
        law_most_recent_window_is_focused(order, nodes, workspace, from + 1);
        law_first_node_with_an_identifier_is_found(nodes, order[from], 0);
        let is_here = match node_position(nodes, order[from], 0) {
            Some(at) => nodes[at].workspace == workspace,
            None => false,
        };
        if is_here {
            let at = node_position(nodes, order[from], 0)->0;
            assert(order[from] == recent_window(order, nodes, workspace, from)->0);
            assert(nodes[at].id == order[from]);
        } else {
            assert forall|i: int| 0 <= i < nodes.len() && (#[trigger] nodes[i]).id
                == order[from] implies nodes[i].workspace != workspace by {
                let at = node_position(nodes, order[from], 0)->0;
                if i < at {
                    assert(nodes[i].id != nodes[at].id);
                } else if at < i {
                    assert(nodes[at].id != nodes[i].id);
                }
            }
            if let Some(id) = recent_window(order, nodes, workspace, from) {
                let (k, at) = choose|k: int, at: int|
                    {
                        &&& from + 1 <= k < order.len()
                        &&& (#[trigger] order[k]) == id
                        &&& 0 <= at < nodes.len()
                        &&& (#[trigger] nodes[at]).id == id
                        &&& nodes[at].workspace == workspace
                        &&& forall|j: int, i: int|
                            from + 1 <= j < k && 0 <= i < nodes.len() && (#[trigger] nodes[i]).id
                                == #[trigger] order[j] ==> nodes[i].workspace != workspace
                    };
                assert(order[k] == id && nodes[at].id == id);
            }
        }
    }
}

/// Focus is on what is focused along with the workspace that the most recently focused monitor
/// displays.
pub proof fn law_focus_is_on_the_displayed_workspace(state: StateView, m: int)
    requires
        state.is_valid(),
        0 <= m < state.monitors.len(),
        state.focus_order[0] == state.monitors[m].id,
        state.monitors[m].workspaces.len() > 0,
    ensures
        state.focused_monitor() == Some(m),
        ({
            let id = state.monitors[m].focus_order[0];
            let container = match recent_window(state.window_focus_order, state.nodes, id, 0) {
                Some(window) => ContainerRef::Window(window),
                None => ContainerRef::Workspace(id),
            };
            &&& state.focused_container() == Some(container)
            &&& state.focused_workspace() matches Some((n, a)) && n == m
                && state.monitors[m].workspaces[a].id == id
        }),
{
    crate::page_stability::lemma_monitor_position_exact(state.monitors, m, 0);
    let monitor = state.monitors[m];
    assert(is_valid_monitor(monitor));
    assert(monitor.focus_order.contains(monitor.workspaces[0].id));
    assert(monitor.position(monitor.focus_order[0]) is Some);
    lemma_workspace_position(monitor.workspaces, monitor.focus_order[0], 0);
}

/// Focusing a workspace displays it and gives its monitor focus. All other monitors display what
/// they did, and no workspace or window is changed.
pub proof fn law_focused_workspace_is_displayed(state: StateView, m: int, a: int)
    requires
        state.is_valid(),
        0 <= m < state.monitors.len(),
        0 <= a < state.monitors[m].workspaces.len(),
    ensures
        ({
            let id = state.monitors[m].workspaces[a].id;
            let next = state.focus(ContainerRef::Workspace(id));
            &&& next == (StateView {
                monitors: next.monitors,
                focus_order: next.focus_order,
                ..state
            })
            &&& next.focus_order.len() == state.focus_order.len()
            &&& next.focus_order[0] == state.monitors[m].id
            &&& next.monitors.len() == state.monitors.len()
            &&& next.monitors[m] == (MonitorView {
                focus_order: next.monitors[m].focus_order,
                ..state.monitors[m]
            })
            &&& next.monitors[m].focus_order[0] == id
            &&& forall|n: int|
                0 <= n < state.monitors.len() && n != m ==> #[trigger] next.monitors[n]
                    == state.monitors[n]
        }),
{
    let id = state.monitors[m].workspaces[a].id;
    lemma_located_at(state.monitors, m, a);
    assert(is_valid_monitor(state.monitors[m]));
    assert(state.monitors[m].focus_order.contains(id));
    assert(state.focus_order.contains(state.monitors[m].id));
    crate::focus_order::law_bump_keeps_ids(state.monitors[m].focus_order, id);
    crate::focus_order::law_bump_keeps_ids(state.focus_order, state.monitors[m].id);
    crate::invariants::lemma_moved_to_front(state.focus_order, state.monitors[m].id);
}

/// Focusing a window makes it the most recently focused one, and focuses its workspace.
pub proof fn law_focused_window_is_displayed(state: StateView, i: int, m: int, a: int)
    requires
        state.is_valid(),
        0 <= i < state.nodes.len(),
        state.nodes[i].content is Window,
        0 <= m < state.monitors.len(),
        0 <= a < state.monitors[m].workspaces.len(),
        state.monitors[m].workspaces[a].id == state.nodes[i].workspace,
    ensures
        ({
            let id = state.nodes[i].id;
            let next = state.focus(ContainerRef::Window(id));
            &&& next == (StateView {
                monitors: next.monitors,
                focus_order: next.focus_order,
                window_focus_order: next.window_focus_order,
                ..state
            })
            &&& next.window_focus_order[0] == id
            &&& next.focus_order[0] == state.monitors[m].id
            &&& next.monitors[m].focus_order[0] == state.nodes[i].workspace
            &&& next.monitors == state.focus(
                ContainerRef::Workspace(state.nodes[i].workspace),
            ).monitors
            &&& next.focused_container() == Some(ContainerRef::Window(id))
        }),
{
    let id = state.nodes[i].id;
    law_first_node_with_an_identifier_is_found(state.nodes, id, 0);
    let at = node_position(state.nodes, id, 0)->0;
    if at < i {
        assert(state.nodes[at].id != state.nodes[i].id);
    }
    assert(state.window_focus_order.contains(id));
    crate::focus_order::law_bump_keeps_ids(state.window_focus_order, id);
    law_focused_workspace_is_displayed(state, m, a);
    lemma_located_at(state.monitors, m, a);
    crate::invariants::law_focused_container_has_focus(state, ContainerRef::Window(id));
}

/// Focusing a monitor leaves what it displays as it is.
pub proof fn law_focused_monitor_displays_the_same(state: StateView, m: int)
    requires
        state.is_valid(),
        0 <= m < state.monitors.len(),
    ensures
        ({
            let next = state.focus(ContainerRef::Monitor(state.monitors[m].id));
            &&& next == (StateView { focus_order: next.focus_order, ..state })
            &&& next.focus_order[0] == state.monitors[m].id
            &&& next.focused_monitor() == Some(m)
        }),
{
    assert(state.focus_order.contains(state.monitors[m].id));
    crate::focus_order::law_bump_keeps_ids(state.focus_order, state.monitors[m].id);
    crate::invariants::lemma_moved_to_front(state.focus_order, state.monitors[m].id);
    crate::page_stability::lemma_monitor_position_exact(state.monitors, m, 0);
}

/// Deactivating a workspace removes it, and nothing else, from its monitor, and reports its name.
pub proof fn law_deactivated_workspace_is_gone(state: StateView, m: int, a: int)
    requires
        state.is_valid(),
        0 <= m < state.monitors.len(),
        0 <= a < state.monitors[m].workspaces.len(),
    ensures
        ({
            let workspace = state.monitors[m].workspaces[a];
            let (next, result) = state.deactivate(workspace.id);
            &&& result is Ok
            &&& next == (StateView { monitors: next.monitors, events: next.events, ..state })
            &&& next.events == state.events.push(
                WmEventView::WorkspaceDeactivated {
                    deactivated_id: workspace.id,
                    deactivated_name: workspace.config.name,
                },
            )
            &&& next.monitors.len() == state.monitors.len()
            &&& next.monitors[m] == (MonitorView {
                workspaces: state.monitors[m].workspaces.remove(a),
                focus_order: next.monitors[m].focus_order,
                ..state.monitors[m]
            })
            &&& !next.monitors[m].focus_order.contains(workspace.id)
            &&& forall|x: u128|
                x != workspace.id ==> (#[trigger] next.monitors[m].focus_order.contains(x)
                    <==> state.monitors[m].focus_order.contains(x))
            &&& forall|n: int|
                0 <= n < state.monitors.len() && n != m ==> #[trigger] next.monitors[n]
                    == state.monitors[n]
        }),
{
    let workspace = state.monitors[m].workspaces[a];
    let order = state.monitors[m].focus_order;
    lemma_located_at(state.monitors, m, a);
    assert(is_valid_monitor(state.monitors[m]));
    assert(order.contains(workspace.id));
    let at = choose|at: int| 0 <= at < order.len() && order[at] == workspace.id;
    lemma_id_at(order, at, 0);
    let next = order.remove(at);
    assert forall|x: u128| x != workspace.id implies (#[trigger] next.contains(x)
        <==> order.contains(x)) by {
        if order.contains(x) {
            let k = choose|k: int| 0 <= k < order.len() && order[k] == x;
            assert(next[if k < at {
                k
            } else {
                k - 1
            }] == x);
        }
        if next.contains(x) {
            let k = choose|k: int| 0 <= k < next.len() && next[k] == x;
            assert(order[if k < at {
                k
            } else {
                k + 1
            }] == x);
        }
    }
    if next.contains(workspace.id) {
        let k = choose|k: int| 0 <= k < next.len() && next[k] == workspace.id;
        let old_at = if k < at {
            k
        } else {
            k + 1
        };
        assert(order[old_at] == order[at]);
    }
}

/// A workspace that isn't on any monitor can't be deactivated.
pub proof fn law_missing_workspace_is_not_deactivated(state: StateView, id: u128)
    requires
        forall|m: int, a: int|
            0 <= m < state.monitors.len() && 0 <= a < state.monitors[m].workspaces.len() ==> (
            #[trigger] state.monitors[m].workspaces[a]).id != id,
    ensures
        state.deactivate(id) == (state, Err::<(), WmErrorView>(WmErrorView::Detached)),
{
    lemma_located(state.monitors, id, 0);
}

/// The active workspaces are those of all monitors, listed monitor by monitor.
pub proof fn law_all_workspaces_are_listed(monitors: Seq<MonitorView>, count: nat, m: int, a: int)
    requires
        0 <= m < count <= monitors.len(),
        0 <= a < monitors[m].workspaces.len(),
    ensures
        attached(monitors, count).len() == attached(monitors, (count - 1) as nat).len()
            + monitors[count - 1].workspaces.len(),
        attached(monitors, 0).len() == 0,
        attached(monitors, m as nat).len() + a < attached(monitors, count).len(),
        attached(monitors, count)[attached(monitors, m as nat).len() + a]
            == monitors[m].workspaces[a],
    decreases count,
{
    if m < count - 1 {
        law_all_workspaces_are_listed(monitors, (count - 1) as nat, m, a);
    }
}

/// The workspace with a name is the first one that has it.
pub proof fn law_first_workspace_with_a_name_is_found(
    workspaces: Seq<WorkspaceView>,
    name: Seq<char>,
    from: int,
)
    requires
        0 <= from,
    ensures
        match named(workspaces, name, from) {
            Some(workspace) => exists|at: int|
                {
                    &&& from <= at < workspaces.len()
                    &&& (#[trigger] workspaces[at]) == workspace
                    &&& workspace.config.name == name
                    &&& forall|i: int|
                        from <= i < at ==> (#[trigger] workspaces[i]).config.name != name
                },
            None => forall|i: int|
                from <= i < workspaces.len() ==> (#[trigger] workspaces[i]).config.name != name,
        },
    decreases workspaces.len() - from,
{
    if from < workspaces.len() {
        law_first_workspace_with_a_name_is_found(workspaces, name, from + 1);
        if workspaces[from].config.name == name {
            assert(workspaces[from] == named(workspaces, name, from)->0);
        } else if let Some(workspace) = named(workspaces, name, from) {
            let at = choose|at: int|
                {
                    &&& from + 1 <= at < workspaces.len()
                    &&& (#[trigger] workspaces[at]) == workspace
                    &&& workspace.config.name == name
                    &&& forall|i: int|
                        from + 1 <= i < at ==> (#[trigger] workspaces[i]).config.name != name
                };
            assert(workspaces[at] == workspace);
        }
    }
}

/// A workspace is part of a page if and only if it is an instance of a spanning workspace. Pages
/// are counted from 1.
pub proof fn law_instances_are_part_of_pages(config: WorkspaceConfigView)
    ensures
        match config.spanning_group {
            Some(group) => config.page_key() matches Some(key) && key.group == group && key.page
                == (if config.spanning_page == 0 {
                1
            } else {
                config.spanning_page
            }),
            None => config.page_key() is None,
        },
        config.logical_name() == match config.spanning_group {
            Some(group) => PageKeyView { group, page: config.spanning_page }.label(),
            None => config.name,
        },
{
}

/// The label of a first page is the name of its group. That of a further page has the page number
/// behind it, after a slash.
pub proof fn law_label_names_group_and_page(key: PageKeyView)
    ensures
        key.page <= 1 ==> key.label() == key.group,
        key.page > 1 ==> {
            let count = key.group.len() as int;
            &&& key.label().len() > count + 1
            &&& key.label().take(count) == key.group
            &&& key.label()[count] == '/'
            &&& crate::text::unsigned_value(key.label().skip(count + 1)) == Some(key.page)
            &&& key.label()[count + 1] != '+'
        },
{
    if key.page > 1 {
        let digits = crate::text::decimal(key.page as nat);
        crate::text::lemma_decimal_read_back(key.page as nat);
        crate::text::lemma_unsigned_read_back(key.page);
        let count = key.group.len() as int;
        assert(key.label().take(count) =~= key.group);
        assert(key.label().skip(count + 1) =~= digits);
        assert(crate::text::is_digit(digits[0]));
        assert(key.label()[count + 1] == digits[0]);
    }
}

/// A label is read as a page of a group that there is: as the first one of the group that it
/// names, or else as the page whose number it has behind its last slash.
pub proof fn law_label_is_read_as_page_of_a_group(
    label: Seq<char>,
    is_group: spec_fn(Seq<char>) -> bool,
)
    ensures
        is_group(label) ==> parsed_label(label, is_group) == Some(
            PageKeyView { group: label, page: 1 },
        ),
        parsed_label(label, is_group) matches Some(key) ==> {
            &&& is_group(key.group)
            &&& key.page >= 1
            &&& label == key.group && key.page == 1 || {
                &&& key.group.len() < label.len()
                &&& label.take(key.group.len() as int) == key.group
                &&& label[key.group.len() as int] == '/'
                &&& !label.skip(key.group.len() as int + 1).contains('/')
                &&& crate::text::unsigned_value(label.skip(key.group.len() as int + 1)) == Some(
                    key.page,
                )
            }
        },
{
    if !is_group(label) && split_label(label) is Some {
        crate::text::lemma_last_position_found(label, '/');
        let slash = crate::text::last_position(label, '/')->0;
        let rest = label.skip(slash + 1);
        if rest.contains('/') {
            let i = choose|i: int| 0 <= i < rest.len() && rest[i] == '/';
            assert(label[slash + 1 + i] == '/');
        }
    }
}

/// A name stands for the page of the active instance that has it. If no active workspace has it,
/// it is read as the label of a page of a declared group.
pub proof fn law_name_stands_for_a_page(
    state: StateView,
    configs: Seq<WorkspaceConfigView>,
    name: Seq<char>,
    w: int,
    g: int,
)
    ensures
        0 <= w < state.workspaces().len() && state.workspaces()[w].config.name == name && (forall|
            v: int,
        |
            0 <= v < w ==> (#[trigger] state.workspaces()[v]).config.name != name)
            ==> state.resolve_target(configs, name)
            == match state.workspaces()[w].config.spanning_group {
            Some(group) => Some(
                PageKeyView {
                    group,
                    page: if state.workspaces()[w].config.spanning_page == 0 {
                        1
                    } else {
                        state.workspaces()[w].config.spanning_page
                    },
                },
            ),
            None => None,
        },
        (forall|v: int|
            0 <= v < state.workspaces().len() ==> (#[trigger] state.workspaces()[v]).config.name
                != name) && 0 <= g < configs.len() && configs[g].name == name
            && configs[g].monitors is Some ==> state.resolve_target(configs, name) == Some(
            PageKeyView { group: name, page: 1 },
        ),
        (forall|v: int|
            0 <= v < state.workspaces().len() ==> (#[trigger] state.workspaces()[v]).config.name
                != name) && state.resolve_target(configs, name) is Some ==> exists|d: int|
            0 <= d < configs.len() && (#[trigger] configs[d]).name == state.resolve_target(
                configs,
                name,
            )->0.group && configs[d].monitors is Some,
{
    law_first_workspace_with_a_name_is_found(state.workspaces(), name, 0);
    crate::config_laws::law_first_spanning_config_with_a_name_is_found(configs, name, 0);
    if state.workspace_by_name(name) is None {
        let is_group = |group: Seq<char>| is_group_name(configs, group);
        law_label_is_read_as_page_of_a_group(name, is_group);
        if let Some(key) = parsed_label(name, is_group) {
            crate::config_laws::law_first_spanning_config_with_a_name_is_found(
                configs,
                key.group,
                0,
            );
            let config = spanning_config(configs, key.group, 0)->0;
            let at = choose|at: int|
                {
                    &&& 0 <= at < configs.len()
                    &&& (#[trigger] configs[at]) == config
                    &&& config.name == key.group
                    &&& config.monitors is Some
                    &&& forall|i: int|
                        0 <= i < at ==> (#[trigger] configs[i]).name != key.group
                            || configs[i].monitors is None
                };
            assert(configs[at].name == key.group);
        }
    }
    if 0 <= w < state.workspaces().len() && state.workspaces()[w].config.name == name && (forall|
        v: int,
    |
        0 <= v < w ==> (#[trigger] state.workspaces()[v]).config.name != name) {
        let found = state.workspace_by_name(name)->0;
        let at = choose|at: int|
            {
                &&& 0 <= at < state.workspaces().len()
                &&& (#[trigger] state.workspaces()[at]) == found
                &&& found.config.name == name
                &&& forall|i: int|
                    0 <= i < at ==> (#[trigger] state.workspaces()[i]).config.name != name
            };
        assert(at == w);
    }
}

/// What is queued for the next sync with the platform is what was asked for, along with what was
/// queued before.
pub proof fn law_pending_sync_holds_what_was_queued(sync: PendingSyncView, id: u128, other: u128)
    ensures
        sync.focus_change() == (PendingSyncView { needs_focus_update: true, ..sync }),
        sync.focused_effect_update() == (PendingSyncView {
            needs_focused_effect_update: true,
            ..sync
        }),
        sync.cursor_jump() == (PendingSyncView { needs_cursor_jump: true, ..sync }),
        sync.redraw(id) == (PendingSyncView {
            containers_to_redraw: sync.redraw(id).containers_to_redraw,
            ..sync
        }),
        sync.redraw(id).containers_to_redraw.contains(other) <==> other == id
            || sync.containers_to_redraw.contains(other),
        sync.no_redraw(id) == (PendingSyncView {
            containers_to_redraw: sync.no_redraw(id).containers_to_redraw,
            ..sync
        }),
        sync.no_redraw(id).containers_to_redraw.contains(other) <==> other != id
            && sync.containers_to_redraw.contains(other),
        sync.reorder(id) == (PendingSyncView {
            workspaces_to_reorder: sync.reorder(id).workspaces_to_reorder,
            ..sync
        }),
        sync.reorder(id).workspaces_to_reorder.contains(other) <==> other == id
            || sync.workspaces_to_reorder.contains(other),
        !PendingSyncView::empty().needs_focus_update,
        !PendingSyncView::empty().needs_focused_effect_update,
        !PendingSyncView::empty().needs_cursor_jump,
        !PendingSyncView::empty().containers_to_redraw.contains(id),
        !PendingSyncView::empty().workspaces_to_reorder.contains(id),
{
}

} // verus!
