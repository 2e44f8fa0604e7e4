//! Merging duplicate instances of spanning workspaces.
use vstd::prelude::*;

use crate::container::{lemma_node_position, node_position, nodes_view, Node, NodeView};
use crate::invariants::are_valid_nodes;
use crate::wm_error::{outcome, WmError, WmErrorView};
use crate::wm_state::{StateView, WmState};

verus! {

/// Those of the first `count` nodes that aren't in a workspace.
pub open spec fn nodes_outside(nodes: Seq<NodeView>, workspace: u128, count: nat) -> Seq<NodeView>
    decreases count,
{
    if count == 0 {
        Seq::empty()
    } else {
        let rest = nodes_outside(nodes, workspace, (count - 1) as nat);
        if nodes[count - 1].workspace == workspace {
            rest
        } else {
            rest.push(nodes[count - 1])
        }
    }
}

/// Those of the first `count` nodes that are in a workspace, moved to another one.
pub open spec fn nodes_taken(nodes: Seq<NodeView>, source: u128, target: u128, count: nat) -> Seq<
    NodeView,
>
    decreases count,
{
    if count == 0 {
        Seq::empty()
    } else {
        let rest = nodes_taken(nodes, source, target, (count - 1) as nat);
        if nodes[count - 1].workspace == source {
            rest.push(NodeView { workspace: target, ..nodes[count - 1] })
        } else {
            rest
        }
    }
}

/// The nodes with those of one workspace appended to another one. Within the workspace they
/// keep their order and parents.
pub open spec fn merged_nodes(nodes: Seq<NodeView>, source: u128, target: u128) -> Seq<NodeView> {
    nodes_outside(nodes, source, nodes.len()) + nodes_taken(nodes, source, target, nodes.len())
}

/// The state with one workspace merged into another.
pub open spec fn merged(state: StateView, source: u128, target: u128) -> (
    StateView,
    Result<(), WmErrorView>,
) {
    StateView { nodes: merged_nodes(state.nodes, source, target), ..state }.deactivate(source)
}

/// Appends the nodes of one workspace to another.
fn move_nodes(nodes: &mut Vec<Node>, source: u128, target: u128)
    ensures
        nodes_view(final(nodes)@) == merged_nodes(nodes_view(old(nodes)@), source, target),
{
    let ghost input = nodes_view(nodes@);
    let mut outside: Vec<Node> = Vec::new();
    let mut taken: Vec<Node> = Vec::new();
    let ghost mut done: nat = 0;
    assert(nodes_view(outside@) =~= Seq::empty());
    assert(nodes_view(taken@) =~= Seq::empty());
    while nodes.len() > 0
        invariant
            done <= input.len(),
            nodes_view(nodes@) == input.skip(done as int),
            nodes_view(outside@) == nodes_outside(input, source, done),
            nodes_view(taken@) == nodes_taken(input, source, target, done),
        decreases nodes@.len(),
    {
        let ghost before = nodes@;
        let ghost outside_before = outside@;
        let ghost taken_before = taken@;
        assert(nodes_view(nodes@).len() == input.skip(done as int).len());
        assert(nodes_view(nodes@)[0] == input.skip(done as int)[0]);
        let mut node = nodes.remove(0);
        assert(nodes_view(nodes@) =~= nodes_view(before).skip(1));
        assert(input.skip(done as int).skip(1) =~= input.skip(done as int + 1));
        assert(node@ == input[done as int]);
        if node.workspace == source {
            node.workspace = target;
            taken.push(node);
            assert(nodes_view(taken@) =~= nodes_view(taken_before).push(node@));
        } else {
            outside.push(node);
            assert(nodes_view(outside@) =~= nodes_view(outside_before).push(node@));
        }
        proof {
            done = done + 1;
        }
    }
    assert(done == input.len()) by {
        assert(nodes_view(nodes@).len() == 0);
    }
    let ghost kept = nodes_view(outside@);
    let ghost moved = nodes_view(taken@);
    nodes.append(&mut outside);
    nodes.append(&mut taken);
    assert(nodes_view(nodes@) =~= kept + moved);
}

/// Merges a duplicate instance of a spanning ("virtual desktop") workspace group into another
/// instance of the same group, then deactivates the merged instance.
///
/// Duplicates arise when a monitor is removed and its instances migrate to a monitor that
/// already has one. Leaving them hidden would make their windows unreachable, since hidden
/// workspaces are cloaked.
///
/// Every direct child of `source` (windows and split containers, so the layout within `source`
/// is preserved) is appended to `target`. The caller is responsible for queueing redraws.
pub fn merge_spanning_instances(source: u128, target: u128, state: &mut WmState) -> (result: Result<
    (),
    WmError,
>)
    ensures
        final(state)@ == merged(old(state)@, source, target).0,
        outcome(result) == merged(old(state)@, source, target).1,
{
    move_nodes(&mut state.nodes, source, target);
    state.deactivate_workspace(source)
}

proof fn lemma_nodes_outside(nodes: Seq<NodeView>, source: u128, count: nat, i: int)
    requires
        0 <= i < count <= nodes.len(),
        nodes[i].workspace != source,
    ensures
        nodes_outside(nodes, source, count).contains(nodes[i]),
    decreases count,
{
    let rest = nodes_outside(nodes, source, (count - 1) as nat);
    let now = nodes_outside(nodes, source, count);
    if i < count - 1 {
        lemma_nodes_outside(nodes, source, (count - 1) as nat, i);
        let k = choose|k: int| 0 <= k < rest.len() && rest[k] == nodes[i];
        assert(now[k] == nodes[i]);
    } else {
        assert(now[rest.len() as int] == nodes[i]);
    }
}

proof fn lemma_nodes_taken(nodes: Seq<NodeView>, source: u128, target: u128, count: nat, i: int)
    requires
        0 <= i < count <= nodes.len(),
        nodes[i].workspace == source,
    ensures
        nodes_taken(nodes, source, target, count).contains(
            NodeView { workspace: target, ..nodes[i] },
        ),
    decreases count,
{
    let rest = nodes_taken(nodes, source, target, (count - 1) as nat);
    let now = nodes_taken(nodes, source, target, count);
    let moved = NodeView { workspace: target, ..nodes[i] };
    if i < count - 1 {
        lemma_nodes_taken(nodes, source, target, (count - 1) as nat, i);
        let k = choose|k: int| 0 <= k < rest.len() && rest[k] == moved;
        assert(now[k] == moved);
    } else {
        assert(now[rest.len() as int] == moved);
    }
}

proof fn lemma_parts_are_all(nodes: Seq<NodeView>, source: u128, target: u128, count: nat)
    requires
        count <= nodes.len(),
    ensures
        nodes_outside(nodes, source, count).len() + nodes_taken(nodes, source, target, count).len()
            == count,
    decreases count,
{
    if count > 0 {
        lemma_parts_are_all(nodes, source, target, (count - 1) as nat);
    }
}

/// Merging loses no window and no split container: there are as many as before, those of the
/// merged workspace are in the other one, and all others stay as they are.
pub proof fn law_merging_keeps_every_node(
    nodes: Seq<NodeView>,
    source: u128,
    target: u128,
    i: int,
)
    requires
        0 <= i < nodes.len(),
    ensures
        merged_nodes(nodes, source, target).len() == nodes.len(),
        merged_nodes(nodes, source, target).contains(
            NodeView {
                workspace: if nodes[i].workspace == source {
                    target
                } else {
                    nodes[i].workspace
                },
                ..nodes[i]
            },
        ),
{
    let outside = nodes_outside(nodes, source, nodes.len());
    let taken = nodes_taken(nodes, source, target, nodes.len());
    let all = merged_nodes(nodes, source, target);
    lemma_parts_are_all(nodes, source, target, nodes.len());
    if nodes[i].workspace == source {
        lemma_nodes_taken(nodes, source, target, nodes.len(), i);
        let moved = NodeView { workspace: target, ..nodes[i] };
        let k = choose|k: int| 0 <= k < taken.len() && taken[k] == moved;
        assert(all[outside.len() + k] == moved);
    } else {
        lemma_nodes_outside(nodes, source, nodes.len(), i);
        let k = choose|k: int| 0 <= k < outside.len() && outside[k] == nodes[i];
        assert(all[k] == nodes[i]);
    }
}

proof fn lemma_node_workspaces(nodes: Seq<NodeView>, source: u128, target: u128, count: nat)
    requires
        count <= nodes.len(),
    ensures
        forall|k: int|
            0 <= k < nodes_taken(nodes, source, target, count).len() ==> (#[trigger] nodes_taken(
                nodes,
                source,
                target,
                count,
            )[k]).workspace == target,
        forall|k: int|
            0 <= k < nodes_outside(nodes, source, count).len() ==> (#[trigger] nodes_outside(
                nodes,
                source,
                count,
            )[k]).workspace != source,
    decreases count,
{
    if count > 0 {
        lemma_node_workspaces(nodes, source, target, (count - 1) as nat);
        let rest = nodes_taken(nodes, source, target, (count - 1) as nat);
        let now = nodes_taken(nodes, source, target, count);
        assert forall|k: int| 0 <= k < now.len() implies (#[trigger] now[k]).workspace
            == target by {
            if k < rest.len() {
                assert(now[k] == rest[k]);
            }
        }
        let rest_outside = nodes_outside(nodes, source, (count - 1) as nat);
        let now_outside = nodes_outside(nodes, source, count);
        assert forall|k: int| 0 <= k < now_outside.len() implies (
        #[trigger] now_outside[k]).workspace != source by {
            if k < rest_outside.len() {
                assert(now_outside[k] == rest_outside[k]);
            }
        }
    }
}

/// Nothing is left in a workspace that was merged into another one.
pub proof fn law_merged_workspace_is_empty(state: StateView, source: u128, target: u128)
    requires
        source != target,
    ensures
        !merged(state, source, target).0.has_children(source),
{
    let nodes = merged_nodes(state.nodes, source, target);
    let outside = nodes_outside(state.nodes, source, state.nodes.len());
    lemma_node_workspaces(state.nodes, source, target, state.nodes.len());
    assert forall|i: int| 0 <= i < nodes.len() implies (#[trigger] nodes[i]).workspace
        != source by {
        if i < outside.len() {
            assert(nodes[i] == outside[i]);
        } else {
            assert(nodes[i] == nodes_taken(state.nodes, source, target, state.nodes.len())[i
                - outside.len()]);
        }
    }
}

/// Where the nodes outside of a workspace came from.
proof fn lemma_outside_origins(nodes: Seq<NodeView>, source: u128, count: nat) -> (origins: Seq<int>)
    requires
        count <= nodes.len(),
    ensures
        origins.len() == nodes_outside(nodes, source, count).len(),
        forall|k: int|
            0 <= k < origins.len() ==> 0 <= #[trigger] origins[k] < count
                && nodes_outside(nodes, source, count)[k] == nodes[origins[k]]
                && nodes[origins[k]].workspace != source,
        forall|k: int, l: int|
            0 <= k < l < origins.len() ==> #[trigger] origins[k] < #[trigger] origins[l],
    decreases count,
{
    if count == 0 {
        Seq::empty()
    } else {
        let rest = lemma_outside_origins(nodes, source, (count - 1) as nat);
        if nodes[count - 1].workspace == source {
            rest
        } else {
            let origins = rest.push(count - 1);
            assert forall|k: int| 0 <= k < origins.len() implies 0 <= #[trigger] origins[k]
                < count && nodes_outside(nodes, source, count)[k] == nodes[origins[k]]
                && nodes[origins[k]].workspace != source by {
                if k < rest.len() {
                    assert(origins[k] == rest[k]);
                }
            }
            assert forall|k: int, l: int| 0 <= k < l < origins.len() implies #[trigger] origins[k]
                < #[trigger] origins[l] by {
                assert(origins[k] == rest[k]);
                if l < rest.len() {
                    assert(origins[l] == rest[l]);
                }
            }
            origins
        }
    }
}

/// Where the nodes taken from a workspace came from.
proof fn lemma_taken_origins(nodes: Seq<NodeView>, source: u128, target: u128, count: nat) -> (
    origins: Seq<int>)
    requires
        count <= nodes.len(),
    ensures
        origins.len() == nodes_taken(nodes, source, target, count).len(),
        forall|k: int|
            0 <= k < origins.len() ==> 0 <= #[trigger] origins[k] < count
                && nodes_taken(nodes, source, target, count)[k] == (NodeView {
                workspace: target,
                ..nodes[origins[k]]
            }) && nodes[origins[k]].workspace == source,
        forall|k: int, l: int|
            0 <= k < l < origins.len() ==> #[trigger] origins[k] < #[trigger] origins[l],
    decreases count,
{
    if count == 0 {
        Seq::empty()
    } else {
        let rest = lemma_taken_origins(nodes, source, target, (count - 1) as nat);
        if nodes[count - 1].workspace != source {
            rest
        } else {
            let origins = rest.push(count - 1);
            assert forall|k: int| 0 <= k < origins.len() implies 0 <= #[trigger] origins[k]
                < count && nodes_taken(nodes, source, target, count)[k] == (NodeView {
                workspace: target,
                ..nodes[origins[k]]
            }) && nodes[origins[k]].workspace == source by {
                if k < rest.len() {
                    assert(origins[k] == rest[k]);
                }
            }
            assert forall|k: int, l: int| 0 <= k < l < origins.len() implies #[trigger] origins[k]
                < #[trigger] origins[l] by {
                assert(origins[k] == rest[k]);
                if l < rest.len() {
                    assert(origins[l] == rest[l]);
                }
            }
            origins
        }
    }
}

/// Merging keeps the nodes of a valid state valid.
proof fn lemma_merged_nodes_are_valid(
    nodes: Seq<NodeView>,
    source: u128,
    target: u128,
    order: Seq<u128>,
)
    requires
        are_valid_nodes(nodes, order),
    ensures
        are_valid_nodes(merged_nodes(nodes, source, target), order),
{
    let outside = lemma_outside_origins(nodes, source, nodes.len());
    let taken = lemma_taken_origins(nodes, source, target, nodes.len());
    let origins = outside + taken;
    let all = merged_nodes(nodes, source, target);
    assert forall|k: int| 0 <= k < all.len() implies 0 <= #[trigger] origins[k] < nodes.len()
        && all[k].id == nodes[origins[k]].id && all[k].window() == nodes[origins[k]].window() by {
        if k < outside.len() {
            assert(origins[k] == outside[k]);
        } else {
            assert(origins[k] == taken[k - outside.len()]);
        }
    }
    assert forall|i: int, j: int| 0 <= i < j < all.len() implies (#[trigger] all[i]).id != (
    #[trigger] all[j]).id by {
        let (x, y) = (origins[i], origins[j]);
        if j < outside.len() {
            assert(x == outside[i] && y == outside[j]);
        } else if i < outside.len() {
            assert(x == outside[i] && y == taken[j - outside.len()]);
        } else {
            assert(x == taken[i - outside.len()] && y == taken[j - outside.len()]);
        }
        assert(x != y);
        if x < y {
            assert(nodes[x].id != nodes[y].id);
        } else {
            assert(nodes[y].id != nodes[x].id);
        }
    }
    assert forall|i: int| 0 <= i < all.len() && (#[trigger] all[i]).window() is Some implies
        order.contains(all[i].id) by {
        assert(nodes[origins[i]].window() is Some);
    }
    assert forall|k: int| 0 <= k < order.len() implies node_position(
        all,
        #[trigger] order[k],
        0,
    ) is Some by {
        let id = order[k];
        lemma_node_position(nodes, id, 0);
        let at = node_position(nodes, id, 0)->0;
        law_merging_keeps_every_node(nodes, source, target, at);
        let moved = NodeView {
            workspace: if nodes[at].workspace == source {
                target
            } else {
                nodes[at].workspace
            },
            ..nodes[at]
        };
        let j = choose|j: int| 0 <= j < all.len() && all[j] == moved;
        assert(all[j].id == id);
        crate::handle_window_moved_or_resized_end::lemma_node_is_found(all, j, 0);
    }
}

/// Merging one workspace into another keeps the state valid, and every other workspace.
pub proof fn law_merging_keeps_validity(
    state: StateView,
    source: u128,
    target: u128,
    workspace: u128,
)
    requires
        state.is_valid(),
    ensures
        merged(state, source, target).0.is_valid(),
        workspace != source && state.locate(workspace) is Some ==> merged(
            state,
            source,
            target,
        ).0.locate(workspace) is Some,
{
    let moved = StateView { nodes: merged_nodes(state.nodes, source, target), ..state };
    lemma_merged_nodes_are_valid(state.nodes, source, target, state.window_focus_order);
    assert(crate::invariants::is_valid_layout(moved));
    assert(moved.is_valid());
    crate::wm_state::lemma_located(moved.monitors, source, 0);
    if let Some(place) = moved.locate(source) {
        crate::invariants::lemma_detach(moved, place);
        let detached = moved.detach(place);
        let next = merged(state, source, target).0;
        crate::invariants::lemma_unrelated_keeps(detached, next);
        crate::invariants::lemma_kept_valid(detached, next, 0);
        if workspace != source && state.locate(workspace) is Some {
            assert(moved.locate(workspace) is Some);
            assert(detached.locate(workspace) is Some);
            assert(next.monitors == detached.monitors);
        }
    }
}

} // verus!
