//! Distributing the instances of spanning workspaces over the connected monitors.
use vstd::prelude::*;

use crate::activate_workspace::{
    activate_default_workspace, default_activated, instance_config, spanning_instance_config,
};
use crate::container::{
    nodes_view, ContainerRef, Node, NodeContent, NodeContentView, NodeView, WindowView,
};
use crate::first_page_laws::{lemma_repaging_settles_groups, settles_groups};
use crate::geometry::Rect;
use crate::invariants::{
    is_spanning, keeps, lemma_deactivate_keeps, lemma_focus_keeps, lemma_instance_may_span,
    lemma_keeps_itself, lemma_keeps_more, lemma_keeps_transitive, lemma_kept, lemma_kept_valid,
    lemma_move_keeps, lemma_same_tree_keeps, lemma_set_workspace_keeps, lemma_sort_keeps,
    lemma_unrelated_keeps, lemma_windows_still_fit, may_span, placements_fit, same_node, same_tree,
    windows_fit,
};
use crate::monitor::{Monitor, MonitorView};
use crate::monitor_identity::{MonitorIdentity, MonitorIdentityView};
use crate::orientation::Orientation;
use crate::packing_laws::{groups_are_packed, law_repaged_groups_are_packed};
use crate::page_keeping::{keeps_pages, lemma_repaging_keeps_pages};
use crate::page_key::{PageKey, PageKeyView};
use crate::page_placement::{assign_pages, page_placements, PagePlacement};
use crate::text::{clone_text, holds_text, text_view};
use crate::untouched::{
    lemma_homing_is_same, lemma_same_but_homes_itself, lemma_same_but_homes_transitive,
    lemma_same_focus, lemma_sorting_is_same, same_but_homes,
};
use crate::user_config::{borrowed_configs, borrowed_workspaces, spanning_configs, UserConfig};
use crate::wm_error::{outcome, WmError, WmErrorView};
use crate::wm_event::{WmEvent, WmEventView};
use crate::wm_state::{lemma_located, StateView, WmState};
use crate::workspace::{Workspace, WorkspaceView};
use crate::workspace_config::{WorkspaceConfig, WorkspaceConfigView};
use crate::workspace_map::{
    found, is_at_placement, is_member, law_placement_is_applied, law_placement_is_applied_once,
};

verus! {

/// A node with its tiling direction swapped, if it is a split container of the workspace.
pub open spec fn transposed_node(node: NodeView, workspace: u128) -> NodeView {
    match node.content {
        NodeContentView::Split { tiling_direction } => if node.workspace == workspace {
            NodeView {
                content: NodeContentView::Split {
                    tiling_direction: tiling_direction.spec_inverse(),
                },
                ..node
            }
        } else {
            node
        },
        NodeContentView::Window(_) => node,
    }
}

pub open spec fn transposed_nodes(nodes: Seq<NodeView>, workspace: u128) -> Seq<NodeView> {
    Seq::new(nodes.len(), |i: int| transposed_node(nodes[i], workspace))
}

/// A node with its floating placement centered within an area, if it is a window of the
/// workspace.
pub open spec fn recentered_node(node: NodeView, workspace: u128, area: Rect) -> NodeView {
    match node.content {
        NodeContentView::Window(window) => if node.workspace == workspace {
            node.with_window(
                WindowView {
                    has_pending_dpi_adjustment: true,
                    floating_placement: window.floating_placement.centered(area),
                    ..window
                },
            )
        } else {
            node
        },
        NodeContentView::Split { .. } => node,
    }
}

pub open spec fn recentered_nodes(nodes: Seq<NodeView>, workspace: u128, area: Rect) -> Seq<
    NodeView,
> {
    Seq::new(nodes.len(), |i: int| recentered_node(nodes[i], workspace, area))
}

/// Whether the windows of a workspace can be centered within an area.
pub open spec fn can_recenter(nodes: Seq<NodeView>, workspace: u128, area: Rect) -> bool {
    forall|i: int|
        0 <= i < nodes.len() && (#[trigger] nodes[i]).workspace == workspace
            && nodes[i].window() is Some
            ==> nodes[i].window()->0.floating_placement.can_center(area)
}

fn transpose_nodes(nodes: &mut Vec<Node>, workspace: u128)
    ensures
        nodes_view(final(nodes)@) == transposed_nodes(nodes_view(old(nodes)@), workspace),
{
    let ghost input = nodes_view(nodes@);
    let mut i: usize = 0;
    while i < nodes.len()
        invariant
            i <= nodes@.len(),
            nodes@.len() == input.len(),
            forall|j: int|
                0 <= j < i ==> (#[trigger] nodes@[j])@ == transposed_node(input[j], workspace),
            forall|j: int| i <= j < nodes@.len() ==> (#[trigger] nodes@[j])@ == input[j],
        decreases nodes@.len() - i,
    {
        if nodes[i].workspace == workspace {
            match &mut nodes[i].content {
                NodeContent::Split { tiling_direction } => {
                    *tiling_direction = tiling_direction.inverse();
                },
                NodeContent::Window(_) => {},
            }
        }
        i = i + 1;
    }
    assert(nodes_view(nodes@) =~= transposed_nodes(input, workspace));
}

fn recenter_windows(nodes: &mut Vec<Node>, workspace: u128, area: &Rect)
    requires
        can_recenter(nodes_view(old(nodes)@), workspace, *area),
    ensures
        nodes_view(final(nodes)@) == recentered_nodes(nodes_view(old(nodes)@), workspace, *area),
{
    let ghost input = nodes_view(nodes@);
    let mut i: usize = 0;
    while i < nodes.len()
        invariant
            i <= nodes@.len(),
            nodes@.len() == input.len(),
            can_recenter(input, workspace, *area),
            forall|j: int|
                0 <= j < i ==> (#[trigger] nodes@[j])@ == recentered_node(
                    input[j],
                    workspace,
                    *area,
                ),
            forall|j: int| i <= j < nodes@.len() ==> (#[trigger] nodes@[j])@ == input[j],
        decreases nodes@.len() - i,
    {
        assert(nodes@[i as int]@ == input[i as int]);
        if nodes[i].workspace == workspace {
            match &mut nodes[i].content {
                NodeContent::Window(window) => {
                    window.has_pending_dpi_adjustment = true;
                    window.floating_placement =
                    window.floating_placement.translate_to_center(area);
                },
                NodeContent::Split { .. } => {},
            }
        }
        i = i + 1;
    }
    assert(nodes_view(nodes@) =~= recentered_nodes(input, workspace, *area));
}

impl StateView {
    /// The state with horizontal and vertical tiling swapped throughout a workspace.
    pub open spec fn transpose(self, place: (int, int)) -> StateView {
        let workspace = self.workspace(place);
        StateView {
            nodes: transposed_nodes(self.nodes, workspace.id),
            ..self.set_workspace(
                place,
                WorkspaceView {
                    tiling_direction: workspace.tiling_direction.spec_inverse(),
                    ..workspace
                },
            )
        }
    }
}

/// Swaps horizontal and vertical tiling throughout a workspace, so that a layout made for one
/// monitor orientation fits the other.
///
/// Callers must keep `Workspace::is_transposed` in sync.
pub fn transpose_layout(monitor: usize, at: usize, state: &mut WmState)
    requires
        monitor < old(state).monitors@.len(),
        at < old(state).monitors@[monitor as int].workspaces@.len(),
    ensures
        final(state)@ == old(state)@.transpose((monitor as int, at as int)),
        keeps(old(state)@, final(state)@, 0),
{
    let ghost before = state@;
    let ghost place = (monitor as int, at as int);
    assert(state@.workspace(place) == state.monitors@[place.0].workspaces@[place.1]@);
    let direction = state.monitors[monitor].workspaces[at].tiling_direction.inverse();
    let id = state.monitors[monitor].workspaces[at].id;
    state.monitors[monitor].workspaces[at].tiling_direction = direction;
    let ghost workspace = WorkspaceView { tiling_direction: direction, ..before.workspace(place) };
    assert(state@.monitors[place.0].workspaces =~= before.monitors[place.0].workspaces.update(
        place.1,
        workspace,
    ));
    assert(state@.monitors =~= before.set_workspace(place, workspace).monitors);
    transpose_nodes(&mut state.nodes, id);
    proof {
        lemma_transpose_keeps(before, place);
    }
}

pub proof fn lemma_transpose_keeps(state: StateView, place: (int, int))
    requires
        0 <= place.0 < state.monitors.len(),
        0 <= place.1 < state.monitors[place.0].workspaces.len(),
    ensures
        keeps(state, state.transpose(place), 0),
{
    let workspace = WorkspaceView {
        tiling_direction: state.workspace(place).tiling_direction.spec_inverse(),
        ..state.workspace(place)
    };
    let turned = state.set_workspace(place, workspace);
    let next = state.transpose(place);
    lemma_set_workspace_keeps(state, place, workspace);
    assert forall|i: int| #![trigger turned.nodes[i]] #![trigger next.nodes[i]]
        0 <= i < turned.nodes.len() implies same_node(turned.nodes[i], next.nodes[i]) by {
        match turned.nodes[i].content {
            NodeContentView::Split { .. } => {},
            NodeContentView::Window(_) => {},
        }
    }
    lemma_same_tree_keeps(turned, next);
    lemma_keeps_transitive(state, turned, next, 0, 0);
}

/// Transposing a layout twice restores it.
pub proof fn law_transposing_twice_restores(state: StateView, place: (int, int))
    requires
        0 <= place.0 < state.monitors.len(),
        0 <= place.1 < state.monitors[place.0].workspaces.len(),
    ensures
        state.transpose(place).transpose(place) == state,
{
    let once = state.transpose(place);
    let twice = once.transpose(place);
    assert(once.workspace(place).id == state.workspace(place).id);
    assert forall|i: int| 0 <= i < state.nodes.len() implies twice.nodes[i]
        == #[trigger] state.nodes[i] by {
        match state.nodes[i].content {
            NodeContentView::Split { .. } => {},
            NodeContentView::Window(_) => {},
        }
    }
    assert(twice.nodes =~= state.nodes);
    assert(twice.monitors[place.0].workspaces =~= state.monitors[place.0].workspaces);
    assert(twice.monitors =~= state.monitors);
}

/// Whether the layout of a workspace has to be transposed (or transposed back) to fit a
/// monitor.
pub open spec fn is_misoriented(workspace: WorkspaceView, monitor: MonitorView) -> bool {
    let should_be_transposed = workspace.layout_orientation != Orientation::spec_of(monitor.bounds);
    should_be_transposed != workspace.is_transposed
}

/// Whether the workspace's layout has to be transposed (or transposed back) to fit the
/// orientation of the given monitor.
///
/// Decided from the orientation the layout was made for and whether it's currently transposed,
/// not from the orientation of the current host: instances can be parked on a monitor without
/// being transposed (e.g. when their monitor is removed).
pub fn needs_transposition(workspace: &Workspace, monitor: &Monitor) -> (needs: bool)
    ensures
        needs == is_misoriented(workspace@, monitor@),
{
    let should_be_transposed = workspace.layout_orientation != Orientation::of(&monitor.bounds);
    should_be_transposed != workspace.is_transposed
}

/// A transposed layout fits its monitor, and only goes back to how it was made on one of the
/// orientation that it was made for.
pub proof fn law_transposed_layout_fits(
    workspace: WorkspaceView,
    host: MonitorView,
    home: MonitorView,
)
    requires
        !workspace.is_transposed,
        is_misoriented(workspace, host),
        Orientation::spec_of(home.bounds) == workspace.layout_orientation,
    ensures
        ({
            let transposed = WorkspaceView { is_transposed: true, ..workspace };
            !is_misoriented(transposed, host) && is_misoriented(transposed, home)
        }),
{
}

/// The state with a workspace moved to the back of a monitor, with its windows centered there.
pub open spec fn moved_to_monitor(state: StateView, place: (int, int), monitor: int) -> StateView {
    let workspace = state.workspace(place);
    let next = state.detach(place).attach(monitor, WorkspaceView { monitor: None, ..workspace });
    StateView {
        nodes: recentered_nodes(
            state.nodes,
            workspace.id,
            state.monitors[monitor].workspace_area,
        ),
        ..next
    }
}

/// The state with the layout of a workspace transposed, and marked as such.
pub open spec fn turned(state: StateView, place: (int, int)) -> StateView {
    let next = state.transpose(place);
    next.set_workspace(
        place,
        WorkspaceView {
            is_transposed: !next.workspace(place).is_transposed,
            ..next.workspace(place)
        },
    )
}

/// The state with a workspace assigned to a page.
pub open spec fn renumbered(
    state: StateView,
    place: (int, int),
    group: WorkspaceConfigView,
    page: usize,
) -> StateView {
    let workspace = state.workspace(place);
    let key = PageKeyView { group: group.name, page };
    state.set_workspace(
        place,
        WorkspaceView {
            config: instance_config(group, key, workspace.config.name),
            ..workspace
        },
    )
}

/// The state with the monitor that a workspace is on as its home.
pub open spec fn settled(state: StateView, place: (int, int)) -> StateView {
    state.set_workspace(
        place,
        WorkspaceView {
            home: Some(MonitorIdentityView::of(state.monitors, place.0)),
            ..state.workspace(place)
        },
    )
}

/// Whether applying a placement moves, transposes or renumbers the instance.
pub open spec fn changes_instance(
    state: StateView,
    place: (int, int),
    placement: PagePlacement,
) -> bool {
    let workspace = state.workspace(place);
    let target = state.monitors[placement.monitor as int];
    ||| state.monitors[place.0].id != target.id
    ||| is_misoriented(workspace, target)
    ||| workspace.config.spanning_page != placement.page
}

/// The state with an instance where a placement puts it.
pub open spec fn placed(
    state: StateView,
    place: (int, int),
    placement: PagePlacement,
    group: WorkspaceConfigView,
) -> StateView {
    let workspace = state.workspace(place);
    let monitor = placement.monitor as int;
    let is_moved = state.monitors[place.0].id != state.monitors[monitor].id;
    let there = if is_moved {
        moved_to_monitor(state, place, monitor)
    } else {
        state
    };
    let target = if is_moved {
        (monitor, there.monitors[monitor].workspaces.len() - 1)
    } else {
        place
    };
    let fitted = if is_misoriented(workspace, state.monitors[monitor]) {
        turned(there, target)
    } else {
        there
    };
    let paged = if workspace.config.spanning_page != placement.page {
        renumbered(fitted, target, group, placement.page)
    } else {
        fitted
    };
    let home = if placement.is_home {
        settled(paged, target)
    } else {
        paged
    };
    if changes_instance(state, place, placement) {
        home.redraw(workspace.id).emit(
            WmEventView::WorkspaceUpdated { updated_workspace: workspace.id },
        )
    } else {
        home
    }
}

/// The state with a placement applied.
pub open spec fn placement_applied(
    state: StateView,
    placement: PagePlacement,
    group: WorkspaceConfigView,
) -> (StateView, Result<bool, WmErrorView>) {
    match state.locate(placement.workspace) {
        Some(place) => (
            placed(state, place, placement, group),
            Ok(changes_instance(state, place, placement)),
        ),
        None => (state, Err(WmErrorView::Detached)),
    }
}

/// Moves a workspace to the back of a monitor's focus order, so that it stays hidden until the
/// page is displayed.
fn move_to_monitor(monitor: usize, at: usize, target: usize, state: &mut WmState)
    requires
        monitor < old(state).monitors@.len(),
        at < old(state).monitors@[monitor as int].workspaces@.len(),
        target < old(state).monitors@.len(),
        windows_fit(old(state)@, old(state)@.workspace((monitor as int, at as int)).id),
    ensures
        final(state)@ == moved_to_monitor(
            old(state)@,
            (monitor as int, at as int),
            target as int,
        ),
        keeps(old(state)@, final(state)@, 0),
        final(state).monitors@[target as int].workspaces@.len() > 0,
        final(state)@.monitors[target as int].workspaces.last().id == old(state)@.workspace(
            (monitor as int, at as int),
        ).id,
{
    let ghost before = state@;
    let ghost place = (monitor as int, at as int);
    assert(state@.workspace(place) == state.monitors@[place.0].workspaces@[place.1]@);
    let area = state.monitors[target].workspace_area;
    assert(state@.monitors[target as int] == state.monitors@[target as int]@);
    let workspace = state.detach_workspace(monitor, at);
    let id = workspace.id;
    state.attach_workspace(target, workspace);
    assert(state@.monitors[target as int] == state.monitors@[target as int]@);
    assert(can_recenter(state@.nodes, id, area)) by {
        assert forall|i: int|
            0 <= i < before.nodes.len() && (#[trigger] before.nodes[i]).workspace == id
                && before.nodes[i].window() is Some implies
            before.nodes[i].window()->0.floating_placement.can_center(area) by {
            reveal(windows_fit);
            assert(before.monitors[target as int].workspace_area == area);
        }
    }
    recenter_windows(&mut state.nodes, id, &area);
    proof {
        lemma_moved_keeps(before, place, target as int);
        assert(state@.monitors[target as int] == state.monitors@[target as int]@);
    }
}

pub proof fn lemma_moved_keeps(state: StateView, place: (int, int), monitor: int)
    requires
        0 <= place.0 < state.monitors.len(),
        0 <= place.1 < state.monitors[place.0].workspaces.len(),
        0 <= monitor < state.monitors.len(),
        windows_fit(state, state.workspace(place).id),
    ensures
        keeps(state, moved_to_monitor(state, place, monitor), 0),
        moved_to_monitor(state, place, monitor).monitors[monitor].workspaces.len() > 0,
        moved_to_monitor(state, place, monitor).monitors[monitor].workspaces.last() == (
        WorkspaceView { monitor: Some(state.monitors[monitor].id), ..state.workspace(place) }),
{
    let workspace = WorkspaceView { monitor: None, ..state.workspace(place) };
    let attached = state.detach(place).attach(monitor, workspace);
    let next = moved_to_monitor(state, place, monitor);
    let area = state.monitors[monitor].workspace_area;
    lemma_move_keeps(state, place, monitor, workspace);
    assert forall|i: int| #![trigger attached.nodes[i]] #![trigger next.nodes[i]]
        0 <= i < attached.nodes.len() implies same_node(attached.nodes[i], next.nodes[i]) by {
        match attached.nodes[i].content {
            NodeContentView::Split { .. } => {},
            NodeContentView::Window(window) => {
                if attached.nodes[i].workspace == workspace.id {
                    reveal(windows_fit);
                    assert(state.nodes[i].window() is Some);
                    assert(window.floating_placement.can_center(
                        state.monitors[monitor].workspace_area,
                    ));
                    crate::geometry::law_centering_keeps_size(window.floating_placement, area);
                }
            },
        }
    }
    lemma_same_tree_keeps(attached, next);
    lemma_keeps_transitive(state, attached, next, 0, 0);
}

/// Sets whether the layout of a workspace is marked as transposed.
fn set_is_transposed(monitor: usize, at: usize, is_transposed: bool, state: &mut WmState)
    requires
        monitor < old(state).monitors@.len(),
        at < old(state).monitors@[monitor as int].workspaces@.len(),
    ensures
        final(state)@ == old(state)@.set_workspace(
            (monitor as int, at as int),
            WorkspaceView {
                is_transposed,
                ..old(state)@.workspace((monitor as int, at as int))
            },
        ),
        keeps(old(state)@, final(state)@, 0),
{
    let ghost before = state@;
    let ghost place = (monitor as int, at as int);
    let ghost workspace = WorkspaceView { is_transposed, ..before.workspace(place) };
    assert(state@.workspace(place) == state.monitors@[place.0].workspaces@[place.1]@);
    state.monitors[monitor].workspaces[at].is_transposed = is_transposed;
    assert(state@.monitors[place.0].workspaces =~= before.monitors[place.0].workspaces.update(
        place.1,
        workspace,
    ));
    assert(state@.monitors =~= before.set_workspace(place, workspace).monitors);
    proof {
        lemma_set_workspace_keeps(before, place, workspace);
    }
}

/// Transposes the layout of a workspace and marks it as such.
fn turn_layout(monitor: usize, at: usize, state: &mut WmState)
    requires
        monitor < old(state).monitors@.len(),
        at < old(state).monitors@[monitor as int].workspaces@.len(),
    ensures
        final(state)@ == turned(old(state)@, (monitor as int, at as int)),
        keeps(old(state)@, final(state)@, 0),
        has_place(final(state)@, monitor, at),
{
    let ghost before = state@;
    let ghost place = (monitor as int, at as int);
    transpose_layout(monitor, at, state);
    let ghost transposed = state@;
    proof {
        assert(before.monitors[place.0] == old(state).monitors@[place.0]@);
        lemma_has_place(*state, monitor, at);
    }
    let is_transposed = state.monitors[monitor].workspaces[at].is_transposed;
    set_is_transposed(monitor, at, !is_transposed, state);
    proof {
        lemma_keeps_transitive(before, transposed, state@, 0, 0);
    }
}

/// Assigns a workspace to a page of its group.
fn renumber(
    monitor: usize,
    at: usize,
    group_config: &WorkspaceConfig,
    page: usize,
    state: &mut WmState,
)
    requires
        monitor < old(state).monitors@.len(),
        at < old(state).monitors@[monitor as int].workspaces@.len(),
        windows_fit(old(state)@, old(state)@.workspace((monitor as int, at as int)).id),
    ensures
        final(state)@ == renumbered(
            old(state)@,
            (monitor as int, at as int),
            group_config@,
            page,
        ),
        keeps(old(state)@, final(state)@, 0),
        has_place(final(state)@, monitor, at),
{
    let ghost before = state@;
    let ghost place = (monitor as int, at as int);
    let page_key = PageKey { group: group_config.name.clone(), page };
    assert(before.monitors[place.0] == state.monitors@[place.0]@);
    assert(state@.workspace(place) == state.monitors@[place.0].workspaces@[place.1]@);
    let name = state.monitors[monitor].workspaces[at].config.name.clone();
    let config = spanning_instance_config(group_config, &page_key, name);
    let ghost workspace = WorkspaceView { config: config@, ..before.workspace(place) };
    state.set_config(monitor, at, config);
    proof {
        lemma_set_workspace_keeps(before, place, workspace);
    }
}

/// Makes the monitor that a workspace is on its home.
fn settle(monitor: usize, at: usize, state: &mut WmState)
    requires
        monitor < old(state).monitors@.len(),
        at < old(state).monitors@[monitor as int].workspaces@.len(),
    ensures
        final(state)@ == settled(old(state)@, (monitor as int, at as int)),
        keeps(old(state)@, final(state)@, 0),
        has_place(final(state)@, monitor, at),
{
    let ghost before = state@;
    let ghost place = (monitor as int, at as int);
    let home = MonitorIdentity::of(state.monitors.as_slice(), monitor);
    assert(before.monitors[place.0] == state.monitors@[place.0]@);
    let ghost workspace = WorkspaceView { home: Some(home@), ..before.workspace(place) };
    state.set_home(monitor, at, Some(home));
    proof {
        lemma_set_workspace_keeps(before, place, workspace);
    }
}

/// Whether there is a workspace at a position.
pub open spec fn has_place(state: StateView, monitor: usize, at: usize) -> bool {
    monitor < state.monitors.len() && at < state.monitors[monitor as int].workspaces.len()
}

pub proof fn lemma_has_place(state: WmState, monitor: usize, at: usize)
    requires
        has_place(state@, monitor, at),
    ensures
        monitor < state.monitors@.len(),
        at < state.monitors@[monitor as int].workspaces@.len(),
        state@.workspace((monitor as int, at as int))
            == state.monitors@[monitor as int].workspaces@[at as int]@,
        state@.monitors[monitor as int] == state.monitors@[monitor as int]@,
{
}

/// Whether an instance is where a placement puts it, so that applying the placement again changes
/// nothing.
pub open spec fn is_applied_once(
    before: StateView,
    after: StateView,
    placement: PagePlacement,
    group: WorkspaceConfigView,
    result: Result<bool, WmError>,
) -> bool {
    &&& result matches Ok(changed) && is_at_placement(before, after, placement, group, changed)
    &&& placement_applied(after, placement, group) == (after, Ok::<bool, WmErrorView>(false))
}

proof fn lemma_is_applied_once(
    state: StateView,
    placement: PagePlacement,
    group: WorkspaceConfigView,
)
    requires
        placement.monitor < state.monitors.len(),
        windows_fit(state, placement.workspace),
    ensures
        state.is_valid() && placement.page >= 1 && is_member(
            state.monitors,
            placement.workspace,
            group,
        ) ==> {
            let (next, result) = placement_applied(state, placement, group);
            &&& result is Ok
            &&& is_at_placement(state, next, placement, group, result->Ok_0)
            &&& placement_applied(next, placement, group) == (next, Ok::<bool, WmErrorView>(false))
        },
{
    if state.is_valid() && placement.page >= 1 && is_member(
        state.monitors,
        placement.workspace,
        group,
    ) {
        law_placement_is_applied(state, placement, group);
        law_placement_is_applied_once(state, placement, group);
    }
}

/// Moves an instance to its assigned monitor and page, transposing its layout to fit the
/// monitor's orientation.
///
/// Returns `true` if anything about the instance changed.
#[verifier::rlimit(40)]
pub fn apply_placement(
    placement: &PagePlacement,
    group_config: &WorkspaceConfig,
    state: &mut WmState,
) -> (result: Result<bool, WmError>)
    requires
        placement.monitor < old(state).monitors@.len(),
        windows_fit(old(state)@, placement.workspace),
    ensures
        final(state)@ == placement_applied(old(state)@, *placement, group_config@).0,
        outcome(result) == placement_applied(old(state)@, *placement, group_config@).1,
        keeps(old(state)@, final(state)@, 0),
        final(state).monitors@.len() == old(state).monitors@.len(),
        windows_fit(final(state)@, placement.workspace),
        result == Ok::<bool, WmError>(false) ==> same_but_homes(old(state)@, final(state)@),
        old(state)@.is_valid() && placement.page >= 1 && is_member(
            old(state)@.monitors,
            placement.workspace,
            group_config@,
        ) ==> is_applied_once(old(state)@, final(state)@, *placement, group_config@, result),
{
    let ghost before = state@;
    proof {
        lemma_keeps_itself(before);
        lemma_is_applied_once(before, *placement, group_config@);
    }
    let (monitor, at) = match state.locate(placement.workspace) {
        Some(place) => place,
        None => {
            return Err(WmError::Detached);
        },
    };
    let target = placement.monitor;
    proof {
        assert(state@.monitors[monitor as int] == state.monitors@[monitor as int]@);
        lemma_has_place(*state, monitor, at);
        lemma_located(before.monitors, placement.workspace, 0);
        assert(state@.monitors[target as int] == state.monitors@[target as int]@);
    }
    let workspace = &state.monitors[monitor].workspaces[at];
    let id = workspace.id;
    let is_moved = state.monitors[monitor].id != state.monitors[target].id;
    // A layout made for a portrait monitor is a vertical stack; shown on a landscape monitor it
    // would be squashed. Flipping is its own inverse, so the original layout is restored back
    // home.
    let is_turned = needs_transposition(workspace, &state.monitors[target]);
    let is_renumbered = workspace.config.spanning_page != placement.page;
    let (host, position): (usize, usize) = if is_moved {
        move_to_monitor(monitor, at, target, state);
        assert(state@.monitors[target as int] == state.monitors@[target as int]@);
        (target, state.monitors[target].workspaces.len() - 1)
    } else {
        (monitor, at)
    };
    let ghost there = state@;
    assert(has_place(there, host, position));
    if is_turned {
        proof {
            lemma_has_place(*state, host, position);
        }
        turn_layout(host, position, state);
        proof {
            lemma_keeps_transitive(before, there, state@, 0, 0);
        }
    }
    let ghost fitted = state@;
    if is_renumbered {
        proof {
            lemma_has_place(*state, host, position);
            lemma_kept(before, fitted, 0);
            lemma_windows_still_fit(before, fitted, placement.workspace);
            assert(fitted.workspace((host as int, position as int)).id == placement.workspace);
        }
        renumber(host, position, group_config, placement.page, state);
        proof {
            lemma_keeps_transitive(before, fitted, state@, 0, 0);
        }
    }
    let ghost paged = state@;
    if placement.is_home {
        // Refresh the identity, so that later matches use the monitor's current device path
        // and bounds.
        proof {
            lemma_has_place(*state, host, position);
        }
        settle(host, position, state);
        proof {
            lemma_keeps_transitive(before, paged, state@, 0, 0);
        }
    }
    let ghost home = state@;
    let has_changes = is_moved || is_turned || is_renumbered;
    if has_changes {
        state.pending_sync.queue_container_to_redraw(id);
        state.emit_event(WmEvent::WorkspaceUpdated { updated_workspace: id });
        proof {
            lemma_unrelated_keeps(home, state@);
            lemma_keeps_transitive(before, home, state@, 0, 0);
        }
    }
    proof {
        lemma_kept(before, state@, 0);
        lemma_windows_still_fit(before, state@, placement.workspace);
        if !has_changes {
            lemma_same_but_homes_itself(before);
            if placement.is_home {
                lemma_homing_is_same(
                    before,
                    (monitor as int, at as int),
                    Some(MonitorIdentityView::of(before.monitors, monitor as int)),
                );
            }
        }
    }
    Ok(has_changes)
}

/// A workspace and the group that it is an instance of, if any.
pub struct Member {
    pub id: u128,
    pub group: Option<String>,
}

pub struct MemberView {
    pub id: u128,
    pub group: Option<Seq<char>>,
}

impl View for Member {
    type V = MemberView;

    open spec fn view(&self) -> MemberView {
        MemberView { id: self.id, group: text_view(self.group) }
    }
}

pub open spec fn members_view(members: Seq<Member>) -> Seq<MemberView> {
    members.map_values(|member: Member| member@)
}

/// The given workspaces with their groups.
pub open spec fn members_of(workspaces: Seq<WorkspaceView>) -> Seq<MemberView> {
    workspaces.map_values(
        |workspace: WorkspaceView|
            MemberView { id: workspace.id, group: workspace.config.spanning_group },
    )
}

/// Whether the windows of all listed instances can be centered on every monitor without leaving
/// the coordinate range.
#[verifier::opaque]
pub open spec fn members_fit(state: StateView, listed: Seq<MemberView>) -> bool {
    forall|i: int|
        0 <= i < listed.len() && (#[trigger] listed[i]).group is Some ==> windows_fit(
            state,
            listed[i].id,
        )
}

/// The instances of a state fit if those of spanning workspaces do.
proof fn lemma_members_fit(state: StateView)
    requires
        placements_fit(state),
    ensures
        members_fit(state, members_of(state.workspaces())),
{
    let listed = members_of(state.workspaces());
    reveal(members_fit);
    assert forall|i: int| 0 <= i < listed.len() && (#[trigger] listed[i]).group is Some implies
        windows_fit(state, listed[i].id) by {
        let (m, a) = crate::packing_laws::lemma_attached_place(
            state.monitors,
            state.monitors.len(),
            i,
        );
        lemma_instance_may_span(state, m, a);
    }
}

proof fn lemma_members_still_fit(a: StateView, b: StateView, listed: Seq<MemberView>)
    requires
        members_fit(a, listed),
        keeps(a, b, 0),
    ensures
        members_fit(b, listed),
{
    reveal(members_fit);
    lemma_kept(a, b, 0);
    assert forall|i: int| 0 <= i < listed.len() && (#[trigger] listed[i]).group is Some implies
        windows_fit(b, listed[i].id) by {
        lemma_windows_still_fit(a, b, listed[i].id);
    }
}

/// The windows of instances that are found fit if those of the instances to find do.
proof fn lemma_found_fit(state: StateView, ids: Seq<u128>, count: nat)
    requires
        count <= ids.len(),
        forall|k: int| 0 <= k < ids.len() ==> windows_fit(state, #[trigger] ids[k]),
    ensures
        forall|k: int|
            0 <= k < found_workspaces(state, ids, count).len() ==> windows_fit(
                state,
                (#[trigger] found_workspaces(state, ids, count)[k]).id,
            ),
    decreases count,
{
    if count > 0 {
        lemma_found_fit(state, ids, (count - 1) as nat);
        lemma_located(state.monitors, ids[count - 1], 0);
        assert(windows_fit(state, ids[count - 1]));
    }
}

/// Lists all workspaces with their groups.
fn list_members(state: &WmState) -> (members: Vec<Member>)
    ensures
        members_view(members@) == members_of(state@.workspaces()),
{
    let workspaces = state.workspaces();
    let mut members: Vec<Member> = Vec::new();
    let mut i: usize = 0;
    while i < workspaces.len()
        invariant
            i <= workspaces@.len(),
            members@.len() == i,
            forall|j: int|
                0 <= j < i ==> (#[trigger] members@[j])@ == members_of(
                    borrowed_workspaces(workspaces@),
                )[j],
        decreases workspaces@.len() - i,
    {
        let workspace = workspaces[i];
        assert(borrowed_workspaces(workspaces@)[i as int] == workspace@);
        members.push(
            Member { id: workspace.id, group: clone_text(&workspace.config.spanning_group) },
        );
        i = i + 1;
    }
    assert(members_view(members@) =~= members_of(borrowed_workspaces(workspaces@)));
    members
}

/// The state after the instances of a group from `from` on were examined, with the
/// identifiers of those that stay. First-page instances without a recorded home settle on
/// their host, and hidden, empty instances away from their home are destroyed.
pub open spec fn gathered(
    state: StateView,
    listed: Seq<MemberView>,
    group: Seq<char>,
    from: int,
    staying: Seq<u128>,
    changed: bool,
) -> (StateView, Result<(Seq<u128>, bool), WmErrorView>)
    decreases listed.len() - from,
{
    if from < 0 || from >= listed.len() {
        (state, Ok((staying, changed)))
    } else if listed[from].group != Some(group) {
        gathered(state, listed, group, from + 1, staying, changed)
    } else {
        let id = listed[from].id;
        match state.locate(id) {
            None => (state, Err(WmErrorView::Detached)),
            Some(place) => {
                let known = homed(state, place);
                if is_disposable(known, place) {
                    let (next, result) = known.deactivate(id);
                    match result {
                        Ok(_) => gathered(next, listed, group, from + 1, staying, true),
                        Err(error) => (next, Err(error)),
                    }
                } else {
                    gathered(known, listed, group, from + 1, staying.push(id), changed)
                }
            },
        }
    }
}

/// The state in which a first-page instance without a recorded home is the screen of its
/// current host.
pub open spec fn homed(state: StateView, place: (int, int)) -> StateView {
    let workspace = state.workspace(place);
    if workspace.home is None && workspace.config.spanning_page <= 1 {
        settled(state, place)
    } else {
        state
    }
}

/// Whether an instance is hidden, empty and not kept alive on its home monitor.
pub open spec fn is_disposable(state: StateView, place: (int, int)) -> bool {
    let workspace = state.workspace(place);
    let is_at_home = match workspace.home {
        Some(home) => home.matches(state.monitors, place.0) is Some,
        None => false,
    };
    &&& !state.has_children(workspace.id)
    &&& !state.is_displayed(workspace.id)
    &&& !(workspace.config.keep_alive && is_at_home)
}

/// Those of the given workspaces, from `from` on, that are attached to a monitor.
pub open spec fn found_workspaces(state: StateView, ids: Seq<u128>, count: nat) -> Seq<
    WorkspaceView,
>
    decreases count,
{
    if count == 0 {
        Seq::empty()
    } else {
        let rest = found_workspaces(state, ids, (count - 1) as nat);
        match state.locate(ids[count - 1]) {
            Some(place) => rest.push(state.workspace(place)),
            None => rest,
        }
    }
}

/// The state with the placements from `from` on applied.
pub open spec fn placements_applied(
    state: StateView,
    placements: Seq<PagePlacement>,
    group: WorkspaceConfigView,
    from: int,
    changed: bool,
) -> (StateView, Result<bool, WmErrorView>)
    decreases placements.len() - from,
{
    if from < 0 || from >= placements.len() {
        (state, Ok(changed))
    } else {
        let (next, result) = placement_applied(state, placements[from], group);
        match result {
            Ok(has_changes) => placements_applied(
                next,
                placements,
                group,
                from + 1,
                changed || has_changes,
            ),
            Err(error) => (next, Err(error)),
        }
    }
}

/// The state with the instances of a group distributed anew.
pub open spec fn group_repaged(
    state: StateView,
    listed: Seq<MemberView>,
    group: WorkspaceConfigView,
    changed: bool,
) -> (StateView, Result<bool, WmErrorView>) {
    let (next, result) = gathered(state, listed, group.name, 0, Seq::empty(), changed);
    match result {
        Ok((ids, has_changes)) => placements_applied(
            next,
            page_placements(found_workspaces(next, ids, ids.len()), next.monitors),
            group,
            0,
            has_changes,
        ),
        Err(error) => (next, Err(error)),
    }
}

/// The state with the instances of the groups from `from` on distributed anew.
pub open spec fn groups_repaged(
    state: StateView,
    listed: Seq<MemberView>,
    groups: Seq<WorkspaceConfigView>,
    from: int,
    changed: bool,
) -> (StateView, Result<bool, WmErrorView>)
    decreases groups.len() - from,
{
    if from < 0 || from >= groups.len() {
        (state, Ok(changed))
    } else {
        let (next, result) = group_repaged(state, listed, groups[from], changed);
        match result {
            Ok(has_changes) => groups_repaged(next, listed, groups, from + 1, has_changes),
            Err(error) => (next, Err(error)),
        }
    }
}

/// The state with a default workspace on each monitor from `from` on that has none, and the
/// workspaces of these monitors in order.
pub open spec fn monitors_filled(
    state: StateView,
    configs: Seq<WorkspaceConfigView>,
    from: int,
    count: int,
    changed: bool,
) -> (StateView, Result<bool, WmErrorView>)
    decreases count - from,
{
    if from < 0 || from >= count {
        (state, Ok(changed))
    } else if state.monitors[from].workspaces.len() == 0 {
        let (next, result) = default_activated(state, configs, from);
        match result {
            Ok(_) => monitors_filled(next.sort(from, configs), configs, from + 1, count, true),
            Err(error) => (next, Err(error)),
        }
    } else {
        monitors_filled(state.sort(from, configs), configs, from + 1, count, changed)
    }
}

/// Whether a container is on one of the monitors.
pub open spec fn is_attached(state: StateView, container: ContainerRef) -> bool {
    match container {
        ContainerRef::Monitor(id) => crate::wm_state::monitor_position(
            state.monitors,
            id,
            0,
        ) is Some,
        ContainerRef::Workspace(id) => state.locate(id) is Some,
        ContainerRef::Window(id) => match crate::container::node_position(state.nodes, id, 0) {
            Some(at) => state.locate(state.nodes[at].workspace) is Some,
            None => false,
        },
    }
}

/// The state with focus back on a container, if it is still there.
pub open spec fn refocused(state: StateView, container: Option<ContainerRef>) -> StateView {
    match container {
        Some(focused) => if is_attached(state, focused) && state.focused_container() != container {
            state.focus(focused).focus_change()
        } else {
            state
        },
        None => state,
    }
}

/// The state with the instances of every spanning workspace group distributed anew.
pub open spec fn repaged(
    state: StateView,
    configs: Seq<WorkspaceConfigView>,
) -> (StateView, Result<bool, WmErrorView>) {
    if state.monitors.len() == 0 {
        (state, Ok(false))
    } else {
        let (paged, paging) = groups_repaged(
            state,
            members_of(state.workspaces()),
            spanning_configs(configs, configs.len()),
            0,
            false,
        );
        match paging {
            Ok(changed) => {
                let (filled, filling) = monitors_filled(
                    paged,
                    configs,
                    0,
                    state.monitors.len() as int,
                    changed,
                );
                match filling {
                    Ok(has_changes) => (
                        refocused(filled, state.focused_container()),
                        Ok(has_changes),
                    ),
                    Err(error) => (filled, Err(error)),
                }
            },
            Err(error) => (paged, Err(error)),
        }
    }
}

/// Result of examining instances, with the identifiers by value.
pub open spec fn gathering_outcome(result: Result<(Vec<u128>, bool), WmError>) -> Result<
    (Seq<u128>, bool),
    WmErrorView,
> {
    match result {
        Ok((ids, changed)) => Ok((ids@, changed)),
        Err(error) => Err(error@),
    }
}

/// Examines the instance at a position, making its host its home if it is on the first page
/// without a recorded one. Returns whether the instance is to be destroyed.
fn examine_instance(monitor: usize, at: usize, state: &mut WmState) -> (disposable: bool)
    requires
        has_place(old(state)@, monitor, at),
    ensures
        final(state)@ == homed(old(state)@, (monitor as int, at as int)),
        disposable == is_disposable(final(state)@, (monitor as int, at as int)),
        has_place(final(state)@, monitor, at),
        final(state)@.workspace((monitor as int, at as int)).id == old(state)@.workspace(
            (monitor as int, at as int),
        ).id,
        keeps(old(state)@, final(state)@, 0),
        final(state)@.window_focus_order == old(state)@.window_focus_order,
        same_but_homes(old(state)@, final(state)@),
{
    proof {
        lemma_keeps_itself(state@);
        lemma_has_place(*state, monitor, at);
        lemma_same_but_homes_itself(state@);
        lemma_homing_is_same(
            state@,
            (monitor as int, at as int),
            Some(MonitorIdentityView::of(state@.monitors, monitor as int)),
        );
    }
    let workspace = &state.monitors[monitor].workspaces[at];
    if workspace.home.is_none() && workspace.config.spanning_page <= 1 {
        settle(monitor, at, state);
    }
    proof {
        lemma_has_place(*state, monitor, at);
    }
    let workspace = &state.monitors[monitor].workspaces[at];
    let is_at_home = match &workspace.home {
        Some(home) => home.matches(state.monitors.as_slice(), monitor).is_some(),
        None => false,
    };
    // `keep_alive` only protects instances on their home monitor.
    let is_kept_alive = workspace.config.keep_alive && is_at_home;
    !state.has_children(workspace.id) && !state.is_displayed(workspace.id) && !is_kept_alive
}

/// Examines the instances of a group, destroying hidden, empty ones away from their home.
///
/// Returns the identifiers of those that stay, and whether anything changed.
fn gather_instances(
    members: &Vec<Member>,
    group: &str,
    has_changes: bool,
    state: &mut WmState,
) -> (result: Result<(Vec<u128>, bool), WmError>)
    ensures
        final(state)@ == gathered(
            old(state)@,
            members_view(members@),
            group@,
            0,
            Seq::empty(),
            has_changes,
        ).0,
        gathering_outcome(result) == gathered(
            old(state)@,
            members_view(members@),
            group@,
            0,
            Seq::empty(),
            has_changes,
        ).1,
        keeps(old(state)@, final(state)@, 0),
        final(state)@.window_focus_order == old(state)@.window_focus_order,
        result matches Ok((_, false)) ==> !has_changes && same_but_homes(
            old(state)@,
            final(state)@,
        ),
        members_fit(old(state)@, members_view(members@)) ==> (result matches Ok((ids, _))
            ==> forall|k: int|
            0 <= k < ids@.len() ==> windows_fit(old(state)@, #[trigger] ids@[k])),
{
    let ghost before = state@;
    let ghost listed = members_view(members@);
    let mut staying: Vec<u128> = Vec::new();
    let mut changed = has_changes;
    let mut i: usize = 0;
    proof {
        lemma_keeps_itself(before);
        lemma_same_but_homes_itself(before);
    }
    while i < members.len()
        invariant
            i <= members@.len(),
            before == old(state)@,
            listed == members_view(members@),
            gathered(before, listed, group@, 0, Seq::empty(), has_changes) == gathered(
                state@,
                listed,
                group@,
                i as int,
                staying@,
                changed,
            ),
            keeps(before, state@, 0),
            state@.window_focus_order == before.window_focus_order,
            !changed ==> !has_changes && same_but_homes(before, state@),
            members_fit(before, listed) ==> forall|k: int|
                0 <= k < staying@.len() ==> windows_fit(before, #[trigger] staying@[k]),
        decreases members@.len() - i,
    {
        let member = &members[i];
        assert(listed[i as int] == member@);
        if holds_text(&member.group, group) {
            let (monitor, at) = match state.locate(member.id) {
                Some(place) => place,
                None => {
                    return Err(WmError::Detached);
                },
            };
            let ghost current = state@;
            assert(state@.monitors[monitor as int] == state.monitors@[monitor as int]@);
            let disposable = examine_instance(monitor, at, state);
            proof {
                assert(current.workspace((monitor as int, at as int)).id == member.id) by {
                    lemma_located(current.monitors, member.id, 0);
                }
                lemma_keeps_transitive(before, current, state@, 0, 0);
                if !changed {
                    lemma_same_but_homes_transitive(before, current, state@);
                }
            }
            let ghost known = state@;
            if disposable {
                let result = state.deactivate_workspace(member.id);
                proof {
                    lemma_deactivate_keeps(known, member.id);
                    lemma_keeps_transitive(before, known, state@, 0, 0);
                }
                match result {
                    Ok(_) => {
                        changed = true;
                    },
                    Err(error) => {
                        return Err(error);
                    },
                }
            } else {
                staying.push(member.id);
                proof {
                    reveal(members_fit);
                    assert(listed[i as int].group is Some);
                }
            }
        }
        i = i + 1;
    }
    Ok((staying, changed))
}

/// Finds the given workspaces.
fn find_workspaces<'a>(state: &'a WmState, ids: &Vec<u128>) -> (workspaces: Vec<&'a Workspace>)
    ensures
        borrowed_workspaces(workspaces@) == found_workspaces(state@, ids@, ids@.len()),
{
    let mut workspaces: Vec<&Workspace> = Vec::new();
    let mut i: usize = 0;
    assert(borrowed_workspaces(workspaces@) =~= Seq::empty());
    while i < ids.len()
        invariant
            i <= ids@.len(),
            borrowed_workspaces(workspaces@) == found_workspaces(state@, ids@, i as nat),
        decreases ids@.len() - i,
    {
        if let Some((monitor, at)) = state.locate(ids[i]) {
            let ghost so_far = workspaces@;
            proof {
                assert(state@.monitors[monitor as int] == state.monitors@[monitor as int]@);
                lemma_has_place(*state, monitor, at);
            }
            let workspace = &state.monitors[monitor].workspaces[at];
            workspaces.push(workspace);
            assert(borrowed_workspaces(workspaces@) =~= borrowed_workspaces(so_far).push(
                workspace@,
            ));
        }
        i = i + 1;
    }
    workspaces
}

/// Moves instances to their assigned monitors and pages.
///
/// Returns whether anything changed so far.
fn apply_placements(
    placements: &Vec<PagePlacement>,
    group_config: &WorkspaceConfig,
    has_changes: bool,
    state: &mut WmState,
) -> (result: Result<bool, WmError>)
    requires
        forall|k: int|
            0 <= k < placements@.len() ==> (#[trigger] placements@[k]).monitor < old(
                state,
            ).monitors@.len() && windows_fit(old(state)@, placements@[k].workspace),
    ensures
        final(state)@ == placements_applied(
            old(state)@,
            placements@,
            group_config@,
            0,
            has_changes,
        ).0,
        outcome(result) == placements_applied(
            old(state)@,
            placements@,
            group_config@,
            0,
            has_changes,
        ).1,
        keeps(old(state)@, final(state)@, 0),
        final(state)@.window_focus_order == old(state)@.window_focus_order,
        result == Ok::<bool, WmError>(false) ==> !has_changes && same_but_homes(
            old(state)@,
            final(state)@,
        ),
{
    let ghost before = state@;
    proof {
        lemma_keeps_itself(before);
        lemma_same_but_homes_itself(before);
    }
    let mut changed = has_changes;
    let mut i: usize = 0;
    while i < placements.len()
        invariant
            i <= placements@.len(),
            before == old(state)@,
            keeps(before, state@, 0),
            state@.monitors.len() == before.monitors.len(),
            forall|k: int|
                0 <= k < placements@.len() ==> (#[trigger] placements@[k]).monitor
                    < before.monitors.len() && windows_fit(before, placements@[k].workspace),
            placements_applied(before, placements@, group_config@, 0, has_changes)
                == placements_applied(state@, placements@, group_config@, i as int, changed),
            state@.window_focus_order == before.window_focus_order,
            !changed ==> !has_changes && same_but_homes(before, state@),
        decreases placements@.len() - i,
    {
        let ghost current = state@;
        proof {
            lemma_kept(before, current, 0);
            lemma_windows_still_fit(before, current, placements@[i as int].workspace);
        }
        let result = apply_placement(&placements[i], group_config, state);
        proof {
            lemma_kept(current, state@, 0);
            lemma_keeps_transitive(before, current, state@, 0, 0);
        }
        match result {
            Ok(has_changed) => {
                proof {
                    if !changed && !has_changed {
                        lemma_same_but_homes_transitive(before, current, state@);
                    }
                }
                changed = changed || has_changed;
            },
            Err(error) => {
                return Err(error);
            },
        }
        i = i + 1;
    }
    Ok(changed)
}

/// Distributes the instances of one spanning workspace group over the connected monitors.
///
/// Returns whether anything changed so far.
fn repage_group(
    group_config: &WorkspaceConfig,
    members: &Vec<Member>,
    has_changes: bool,
    state: &mut WmState,
) -> (result: Result<bool, WmError>)
    requires
        members_fit(old(state)@, members_view(members@)),
        old(state).monitors@.len() > 0,
    ensures
        final(state)@ == group_repaged(
            old(state)@,
            members_view(members@),
            group_config@,
            has_changes,
        ).0,
        outcome(result) == group_repaged(
            old(state)@,
            members_view(members@),
            group_config@,
            has_changes,
        ).1,
        keeps(old(state)@, final(state)@, 0),
        final(state)@.window_focus_order == old(state)@.window_focus_order,
        result == Ok::<bool, WmError>(false) ==> !has_changes && same_but_homes(
            old(state)@,
            final(state)@,
        ),
{
    let ghost before = state@;
    let (ids, gathering_changes) = match gather_instances(
        members,
        group_config.name.as_str(),
        has_changes,
        state,
    ) {
        Ok(gathered) => gathered,
        Err(error) => {
            return Err(error);
        },
    };
    let ghost next = state@;
    let instances = find_workspaces(state, &ids);
    let placements = assign_pages(instances.as_slice(), state.monitors.as_slice());
    let instance_count = instances.len();
    let monitor_count = state.monitors.len();
    proof {
        lemma_kept(before, next, 0);
        crate::page_laws::law_every_instance_is_placed_once(
            borrowed_workspaces(instances@),
            next.monitors,
        );
        assert forall|k: int| 0 <= k < ids@.len() implies windows_fit(next, #[trigger] ids@[k]) by {
            lemma_windows_still_fit(before, next, ids@[k]);
        }
        lemma_found_fit(next, ids@, ids@.len());
    }
    let result = apply_placements(&placements, group_config, gathering_changes, state);
    proof {
        lemma_keeps_transitive(before, next, state@, 0, 0);
        if result == Ok::<bool, WmError>(false) {
            lemma_same_but_homes_transitive(before, next, state@);
        }
    }
    result
}

/// Distributes the instances of all spanning workspace groups over the connected monitors.
///
/// Returns whether anything changed.
fn repage_groups(config: &UserConfig, state: &mut WmState) -> (result: Result<bool, WmError>)
    requires
        placements_fit(old(state)@),
        old(state).monitors@.len() > 0,
    ensures
        final(state)@ == groups_repaged(
            old(state)@,
            members_of(old(state)@.workspaces()),
            spanning_configs(config.value@.workspaces, config.value@.workspaces.len()),
            0,
            false,
        ).0,
        outcome(result) == groups_repaged(
            old(state)@,
            members_of(old(state)@.workspaces()),
            spanning_configs(config.value@.workspaces, config.value@.workspaces.len()),
            0,
            false,
        ).1,
        keeps(old(state)@, final(state)@, 0),
        final(state)@.window_focus_order == old(state)@.window_focus_order,
        result == Ok::<bool, WmError>(false) ==> same_but_homes(old(state)@, final(state)@),
        old(state)@.workspaces().len() <= usize::MAX,
{
    let ghost before = state@;
    proof {
        lemma_keeps_itself(before);
        lemma_same_but_homes_itself(before);
    }
    let members = list_members(state);
    assert(members_view(members@).len() == before.workspaces().len());
    assert(members.len() <= usize::MAX);
    let groups = config.spanning_workspace_configs();
    let ghost listed = members_of(before.workspaces());
    let ghost configs = borrowed_configs(groups@);
    proof {
        lemma_members_fit(before);
    }
    let mut changed = false;
    let mut i: usize = 0;
    while i < groups.len()
        invariant
            i <= groups@.len(),
            before == old(state)@,
            before.workspaces().len() <= usize::MAX,
            listed == members_of(before.workspaces()),
            members_view(members@) == listed,
            configs == borrowed_configs(groups@),
            configs == spanning_configs(config.value@.workspaces, config.value@.workspaces.len()),
            keeps(before, state@, 0),
            members_fit(state@, listed),
            state@.monitors.len() == before.monitors.len(),
            before.monitors.len() > 0,
            groups_repaged(before, listed, configs, 0, false) == groups_repaged(
                state@,
                listed,
                configs,
                i as int,
                changed,
            ),
            state@.window_focus_order == before.window_focus_order,
            !changed ==> same_but_homes(before, state@),
        decreases groups@.len() - i,
    {
        let ghost current = state@;
        assert(configs[i as int] == groups@[i as int]@);
        let result = repage_group(groups[i], &members, changed, state);
        proof {
            lemma_members_still_fit(current, state@, listed);
            lemma_kept(current, state@, 0);
            lemma_keeps_transitive(before, current, state@, 0, 0);
        }
        match result {
            Ok(has_changed) => {
                proof {
                    if !has_changed {
                        lemma_same_but_homes_transitive(before, current, state@);
                    }
                }
                changed = has_changed;
            },
            Err(error) => {
                return Err(error);
            },
        }
        i = i + 1;
    }
    Ok(changed)
}

/// A default workspace is activated on its monitor only.
pub proof fn lemma_default_activated(
    state: StateView,
    configs: Seq<WorkspaceConfigView>,
    monitor: int,
)
    requires
        0 <= monitor < state.monitors.len(),
    ensures
        default_activated(state, configs, monitor).0.monitors.len() == state.monitors.len(),
        forall|m: int|
            0 <= m < state.monitors.len() && m != monitor ==> #[trigger] default_activated(
                state,
                configs,
                monitor,
            ).0.monitors[m] == state.monitors[m],
        default_activated(state, configs, monitor).1 is Ok ==> default_activated(
            state,
            configs,
            monitor,
        ).0.monitors[monitor].workspaces.len() == state.monitors[monitor].workspaces.len() + 1,
        default_activated(state, configs, monitor).0.window_focus_order
            == state.window_focus_order,
{
    let next = default_activated(state, configs, monitor).0;
    if default_activated(state, configs, monitor).1 is Ok {
        assert(exists|config: WorkspaceConfigView, is_home: bool|
            next == crate::activate_workspace::with_new_workspace(
                state,
                configs,
                config,
                monitor,
                is_home,
            ));
        let (config, is_home) = choose|config: WorkspaceConfigView, is_home: bool|
            next == crate::activate_workspace::with_new_workspace(
                state,
                configs,
                config,
                monitor,
                is_home,
            );
        lemma_new_workspace_is_on(state, configs, config, monitor, is_home);
    }
}

proof fn lemma_new_workspace_is_on(
    state: StateView,
    configs: Seq<WorkspaceConfigView>,
    config: WorkspaceConfigView,
    monitor: int,
    is_home: bool,
)
    requires
        0 <= monitor < state.monitors.len(),
    ensures
        ({
            let next = crate::activate_workspace::with_new_workspace(
                state,
                configs,
                config,
                monitor,
                is_home,
            );
            &&& next.monitors.len() == state.monitors.len()
            &&& forall|m: int|
                0 <= m < state.monitors.len() && m != monitor ==> #[trigger] next.monitors[m]
                    == state.monitors[m]
            &&& next.monitors[monitor].workspaces.len() == state.monitors[monitor].workspaces.len()
                + 1
            &&& next.window_focus_order == state.window_focus_order
        }),
{
    let created = crate::workspace::WorkspaceView::created(
        state.next_id,
        config,
        crate::activate_workspace::new_tiling_direction(state.monitors[monitor]),
    );
    let workspace = WorkspaceView {
        home: if is_home {
            Some(MonitorIdentityView::of(state.monitors, monitor))
        } else {
            None
        },
        ..created
    };
    crate::invariants::lemma_sorted_workspaces(
        configs,
        state.monitors[monitor].attach(workspace).workspaces,
    );
}

/// Activates a default workspace on every monitor that has no workspace, and puts the
/// workspaces of every monitor in order.
///
/// Returns whether anything changed so far.
fn fill_monitors(has_changes: bool, state: &mut WmState, config: &UserConfig) -> (result: Result<
    bool,
    WmError,
>)
    ensures
        final(state)@ == monitors_filled(
            old(state)@,
            config.value@.workspaces,
            0,
            old(state)@.monitors.len() as int,
            has_changes,
        ).0,
        outcome(result) == monitors_filled(
            old(state)@,
            config.value@.workspaces,
            0,
            old(state)@.monitors.len() as int,
            has_changes,
        ).1,
        keeps(old(state)@, final(state)@, old(state)@.monitors.len()),
        result is Ok ==> every_monitor_has_workspace(final(state)@),
        final(state)@.window_focus_order == old(state)@.window_focus_order,
        result == Ok::<bool, WmError>(false) ==> !has_changes && same_but_homes(
            old(state)@,
            final(state)@,
        ),
{
    let ghost before = state@;
    let ghost configs = config.value@.workspaces;
    let ghost count = before.monitors.len();
    proof {
        lemma_keeps_itself(before);
        lemma_same_but_homes_itself(before);
    }
    let mut changed = has_changes;
    let mut i: usize = 0;
    while i < state.monitors.len()
        invariant
            i <= count,
            before == old(state)@,
            configs == config.value@.workspaces,
            count == before.monitors.len(),
            state@.monitors.len() == count,
            keeps(before, state@, i as nat),
            monitors_filled(before, configs, 0, count as int, has_changes) == monitors_filled(
                state@,
                configs,
                i as int,
                count as int,
                changed,
            ),
            forall|m: int|
                0 <= m < i ==> (#[trigger] state@.monitors[m]).workspaces.len() > 0,
            state@.window_focus_order == before.window_focus_order,
            !changed ==> !has_changes && same_but_homes(before, state@),
        decreases count - i,
    {
        let ghost current = state@;
        assert(state@.monitors[i as int] == state.monitors@[i as int]@);
        if state.monitors[i].workspaces.len() == 0 {
            let result = activate_default_workspace(i, state, config);
            proof {
                lemma_kept(current, state@, 1);
                lemma_default_activated(current, configs, i as int);
                lemma_keeps_transitive(before, current, state@, i as nat, 1);
                lemma_keeps_more(before, state@, (i + 1) as nat, count);
            }
            match result {
                Ok(_) => {
                    changed = true;
                },
                Err(error) => {
                    return Err(error);
                },
            }
        } else {
            proof {
                lemma_keeps_more(before, current, i as nat, (i + 1) as nat);
            }
        }
        let ghost filled = state@;
        state.sort_workspaces(i, config);
        proof {
            crate::invariants::lemma_sorted_workspaces(
                configs,
                filled.monitors[i as int].workspaces,
            );
            lemma_sort_keeps(filled, i as int, configs);
            lemma_keeps_transitive(before, filled, state@, (i + 1) as nat, 0);
            if !changed {
                lemma_sorting_is_same(filled, i as int, configs);
                lemma_same_but_homes_transitive(before, filled, state@);
            }
        }
        i = i + 1;
    }
    Ok(changed)
}

/// Whether every monitor has a workspace.
pub open spec fn every_monitor_has_workspace(state: StateView) -> bool {
    forall|m: int|
        0 <= m < state.monitors.len() ==> (#[trigger] state.monitors[m]).workspaces.len() > 0
}

/// Whether a container is on one of the monitors.
fn container_is_attached(container: &ContainerRef, state: &WmState) -> (attached: bool)
    ensures
        attached == is_attached(state@, *container),
{
    match *container {
        ContainerRef::Monitor(id) => state.find_monitor(id).is_some(),
        ContainerRef::Workspace(id) => state.locate(id).is_some(),
        ContainerRef::Window(id) => match crate::container::find_node(&state.nodes, id) {
            Some(at) => {
                assert(state@.nodes[at as int] == state.nodes@[at as int]@);
                state.locate(state.nodes[at].workspace).is_some()
            },
            None => false,
        },
    }
}

/// Whether focus stays on the window or workspace that has it, if it is still there.
pub open spec fn keeps_focus(before: StateView, after: StateView) -> bool {
    match before.focused_container() {
        Some(ContainerRef::Monitor(_)) => true,
        Some(container) => is_attached(after, container) ==> after.focused_container() == Some(
            container,
        ),
        None => true,
    }
}

/// Whether a workspace is an instance of a spanning workspace, or an identifier is yet to be given
/// to a workspace.
fn is_possible_instance(id: u128, state: &WmState) -> (is_possible: bool)
    ensures
        is_possible == may_span(state@, id),
{
    if id >= state.next_id {
        return true;
    }
    let mut m: usize = 0;
    while m < state.monitors.len()
        invariant
            m <= state.monitors@.len(),
            id < state@.next_id,
            forall|n: int, b: int|
                0 <= n < m && 0 <= b < state@.monitors[n].workspaces.len() && (
                #[trigger] state@.monitors[n].workspaces[b]).id == id ==> !is_spanning(
                    state@.monitors[n].workspaces[b],
                ),
        decreases state.monitors@.len() - m,
    {
        assert(state@.monitors[m as int] == state.monitors@[m as int]@);
        let workspaces = &state.monitors[m].workspaces;
        let mut a: usize = 0;
        while a < workspaces.len()
            invariant
                a <= workspaces@.len(),
                m < state.monitors@.len(),
                state@.monitors[m as int] == state.monitors@[m as int]@,
                *workspaces == state.monitors@[m as int].workspaces,
                forall|b: int|
                    0 <= b < a && (#[trigger] state@.monitors[m as int].workspaces[b]).id == id
                        ==> !is_spanning(state@.monitors[m as int].workspaces[b]),
            decreases workspaces@.len() - a,
        {
            assert(state@.monitors[m as int].workspaces[a as int] == workspaces@[a as int]@);
            if workspaces[a].id == id && workspaces[a].config.spanning_group.is_some() {
                proof {
                    lemma_instance_may_span(state@, m as int, a as int);
                }
                return true;
            }
            a = a + 1;
        }
        m = m + 1;
    }
    false
}

/// Whether the windows of spanning workspaces can be centered on every monitor without leaving
/// the coordinate range.
pub fn windows_fit_monitors(state: &WmState) -> (fit: bool)
    ensures
        fit == placements_fit(state@),
{
    proof {
        reveal(windows_fit);
    }
    let mut i: usize = 0;
    while i < state.nodes.len()
        invariant
            i <= state.nodes@.len(),
            forall|j: int, m: int|
                0 <= j < i && 0 <= m < state@.monitors.len() && (
                #[trigger] state@.nodes[j]).window() is Some && may_span(
                    state@,
                    state@.nodes[j].workspace,
                ) ==> state@.nodes[j].window()->0.floating_placement.can_center(
                    (#[trigger] state@.monitors[m]).workspace_area,
                ),
        decreases state.nodes@.len() - i,
    {
        assert(state@.nodes[i as int] == state.nodes@[i as int]@);
        match &state.nodes[i].content {
            NodeContent::Window(window) => if is_possible_instance(
                state.nodes[i].workspace,
                state,
            ) {
                let mut m: usize = 0;
                while m < state.monitors.len()
                    invariant
                        m <= state.monitors@.len(),
                        i < state.nodes@.len(),
                        state@.nodes[i as int].window() == Some(window@),
                        may_span(state@, state@.nodes[i as int].workspace),
                        forall|n: int|
                            0 <= n < m ==> window.floating_placement.can_center(
                                (#[trigger] state@.monitors[n]).workspace_area,
                            ),
                    decreases state.monitors@.len() - m,
                {
                    assert(state@.monitors[m as int] == state.monitors@[m as int]@);
                    if !window.floating_placement.fits_centered(&state.monitors[m].workspace_area) {
                        proof {
                            reveal(windows_fit);
                            assert(!windows_fit(state@, state@.nodes[i as int].workspace));
                        }
                        return false;
                    }
                    m = m + 1;
                }
            },
            NodeContent::Split { .. } => {},
        }
        i = i + 1;
    }
    true
}

/// Whether focus is on the monitor of the workspace that had it, if that is still there.
pub open spec fn focus_follows(before: StateView, after: StateView) -> bool {
    match before.focused_workspace() {
        Some(place) => match found(after.monitors, before.workspace(place).id) {
            Some((monitor, _)) => after.focused_monitor() == Some(monitor),
            None => true,
        },
        None => true,
    }
}

/// A container that keeps focus keeps it on its workspace's monitor.
proof fn lemma_focus_follows(before: StateView, after: StateView)
    requires
        before.is_valid(),
        after.is_valid(),
        same_tree(before.nodes, after.nodes),
        keeps_focus(before, after),
    ensures
        focus_follows(before, after),
{
    if let Some(place) = before.focused_workspace() {
        let id = before.workspace(place).id;
        let container = before.container_to_focus(id);
        if found(after.monitors, id) is Some {
            crate::invariants::lemma_recent_window(
                before.window_focus_order,
                before.nodes,
                id,
                0,
            );
            if let ContainerRef::Window(window) = container {
                crate::invariants::lemma_same_ids_same_node_position(
                    before.nodes,
                    after.nodes,
                    window,
                    0,
                );
                crate::container::lemma_node_position(before.nodes, window, 0);
                let at = crate::container::node_position(before.nodes, window, 0)->0;
                assert(same_node(before.nodes[at], after.nodes[at]));
            }
            assert(is_attached(after, container));
            assert(after.focused_container() == Some(container));
            crate::packing_laws::lemma_focused_workspace(after);
            let shown = after.workspace(after.focused_workspace()->0).id;
            crate::invariants::lemma_recent_window(
                after.window_focus_order,
                after.nodes,
                shown,
                0,
            );
            assert(shown == id);
        }
    }
}

/// Restoring focus gives it back to the container that had it.
pub proof fn lemma_refocusing_keeps_focus(before: StateView, after: StateView)
    requires
        before.is_valid(),
        after.is_valid(),
        same_tree(before.nodes, after.nodes),
        before.window_focus_order == after.window_focus_order,
    ensures
        keeps_focus(before, refocused(after, before.focused_container())),
{
    if let Some(container) = before.focused_container() {
        let next = refocused(after, Some(container));
        match container {
            ContainerRef::Monitor(_) => {},
            ContainerRef::Workspace(id) => {
                crate::invariants::lemma_recent_window_stays(
                    before.window_focus_order,
                    before.nodes,
                    after.nodes,
                    id,
                    0,
                );
            },
            ContainerRef::Window(id) => {
                let m = before.focused_monitor()->0;
                let at = before.monitors[m].displayed()->0;
                let workspace = before.monitors[m].workspaces[at].id;
                crate::invariants::lemma_recent_window(
                    before.window_focus_order,
                    before.nodes,
                    workspace,
                    0,
                );
            },
        }
        if is_attached(after, container) {
            if !(container is Monitor) && after.focused_container() != Some(container) {
                crate::invariants::law_focused_container_has_focus(after, container);
            }
        } else {
            assert(next == after);
        }
    }
}

/// Re-distributes the instances of every spanning workspace group over the connected monitors.
///
/// Instances whose home monitor is connected are moved back to it (page 1). The remaining
/// instances (screens of disconnected monitors, and extra screens created on further pages) are
/// packed onto further pages, one instance per monitor and page, in a fixed order, so that a
/// group with more instances than monitors is browsed page by page without gaps. Layouts are
/// transposed to fit the orientation of the monitor they end up on, and transposed back at
/// home.
///
/// Hidden, empty instances away from their home are destroyed instead of occupying a page slot.
/// Monitors left without any workspace get a default one. The previously focused container
/// keeps focus, even if its workspace moved to another monitor.
///
/// Callers are responsible for re-syncing the displayed page (e.g. via `sync_monitors_to_page`)
/// when this returns `true`.
///
/// Returns `true` if any instance was moved, renumbered, transposed or destroyed, or a default
/// workspace was activated.
pub fn repage_spanning_desktops(state: &mut WmState, config: &UserConfig) -> (result: Result<
    bool,
    WmError,
>)
    requires
        placements_fit(old(state)@),
    ensures
        final(state)@ == repaged(old(state)@, config.value@.workspaces).0,
        outcome(result) == repaged(old(state)@, config.value@.workspaces).1,
        keeps(old(state)@, final(state)@, old(state)@.monitors.len()),
        same_tree(old(state)@.nodes, final(state)@.nodes),
        result is Ok ==> every_monitor_has_workspace(final(state)@),
        result is Ok && old(state)@.is_valid() && old(state)@.next_id + old(state)@.monitors.len()
            <= u128::MAX ==> keeps_focus(old(state)@, final(state)@) && focus_follows(
            old(state)@,
            final(state)@,
        ),
        result is Ok && old(state)@.is_valid() ==> keeps_pages(
            old(state)@,
            final(state)@,
            config.value@.workspaces,
        ),
        result == Ok::<bool, WmError>(false) ==> same_but_homes(old(state)@, final(state)@),
        result is Ok && old(state)@.is_valid() && old(state)@.monitors.len() > 0
            && old(state)@.next_id + old(state)@.monitors.len() <= u128::MAX ==> groups_are_packed(
            final(state)@,
            config.value@.workspaces,
        ) && settles_groups(old(state)@, final(state)@, config.value@.workspaces),
{
    let ghost before = state@;
    let ghost count = before.monitors.len();
    proof {
        lemma_keeps_itself(before);
        lemma_same_but_homes_itself(before);
    }
    if state.monitors.len() == 0 {
        proof {
            if before.is_valid() {
                lemma_repaging_keeps_pages(before, config.value@.workspaces);
            }
        }
        return Ok(false);
    }
    let focused_container = state.focused_container();
    let paging = repage_groups(config, state);
    let ghost paged = state@;
    proof {
        lemma_kept(before, paged, 0);
        lemma_keeps_more(before, paged, 0, count);
    }
    let changed = match paging {
        Ok(changed) => changed,
        Err(error) => {
            return Err(error);
        },
    };
    let filling = fill_monitors(changed, state, config);
    let ghost filled = state@;
    proof {
        lemma_keeps_transitive(before, paged, filled, 0, count);
        lemma_kept(before, filled, count);
    }
    let has_changes = match filling {
        Ok(has_changes) => has_changes,
        Err(error) => {
            return Err(error);
        },
    };
    proof {
        if !has_changes {
            lemma_same_but_homes_transitive(before, paged, filled);
            lemma_same_focus(before, filled);
        }
    }
    // Moving the focused workspace to the back of another monitor's focus order silently
    // changes which container is focused. Restore focus (which also displays the moved
    // workspace on its new monitor).
    if let Some(focused) = focused_container {
        let has_lost_focus = match state.focused_container() {
            Some(current) => current != focused,
            None => true,
        };
        if container_is_attached(&focused, state) && has_lost_focus {
            state.set_focused_descendant(focused);
            let ghost focus = state@;
            state.pending_sync.queue_focus_change();
            proof {
                lemma_focus_keeps(filled, focused);
                lemma_keeps_transitive(before, filled, focus, count, 0);
                lemma_unrelated_keeps(focus, state@);
                lemma_keeps_transitive(before, focus, state@, count, 0);
                crate::invariants::lemma_focus_moves_nothing(filled, focused);
                assert(every_monitor_has_workspace(state@));
            }
        }
    }
    proof {
        if before.is_valid() && before.next_id + count <= u128::MAX {
            lemma_kept_valid(before, filled, count);
            lemma_refocusing_keeps_focus(before, filled);
        }
    }
    proof {
        let configs = config.value@.workspaces;
        if before.is_valid() {
            lemma_repaging_keeps_pages(before, configs);
        }
        if before.is_valid() && before.next_id + count <= u128::MAX {
            lemma_kept_valid(before, state@, count);
            lemma_focus_follows(before, state@);
            law_repaged_groups_are_packed(before, configs);
            lemma_repaging_settles_groups(before, configs);
        }
    }
    Ok(has_changes)
}

} // verus!
