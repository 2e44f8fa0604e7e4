//! What distributing instances anew does to each of them.
use vstd::prelude::*;

use crate::invariants::{
    is_spanning, keeps, lemma_instance_may_span, lemma_keeps_itself, lemma_kept, lemma_located_at,
    lemma_placements_still_fit, lemma_windows_still_fit, may_span, placements_fit, same_tree,
    windows_fit,
};
use crate::monitor::MonitorView;
use crate::monitor_identity::MonitorIdentityView;
use crate::page_laws::{law_every_instance_is_placed_once, law_slots_hold_one_instance};
use crate::page_placement::{
    lemma_pages_are_compact, page_placements, places_instance, PagePlacement,
};
use crate::repage_spanning_desktops::{
    found_workspaces, gathered, group_repaged, homed, is_disposable, placement_applied,
    placements_applied, MemberView,
};
use crate::wm_state::{same_layout, same_screen, StateView};
use crate::workspace::WorkspaceView;
use crate::workspace_config::WorkspaceConfigView;
use crate::workspace_map::{
    found, front, is_placed, lemma_deactivate_found, lemma_found_at, lemma_found_place,
    lemma_identity_of_layout, lemma_placement_found, lemma_set_workspace_found, placed_view,
    same_but, same_fronts,
};

verus! {

/// Whether a workspace is an instance of a group.
pub open spec fn in_group(workspace: WorkspaceView, group: Seq<char>) -> bool {
    workspace.config.spanning_group == Some(group)
}

/// Whether a workspace is attached, and an instance of a group.
pub open spec fn is_instance(monitors: Seq<MonitorView>, id: u128, group: Seq<char>) -> bool {
    match found(monitors, id) {
        Some((_, workspace)) => in_group(workspace, group),
        None => false,
    }
}

/// Whether a workspace is listed from a position on, as an instance of a group.
pub open spec fn is_listed(listed: Seq<MemberView>, group: Seq<char>, from: int, id: u128) -> bool {
    exists|j: int|
        from <= j < listed.len() && (#[trigger] listed[j]).id == id && listed[j].group == Some(
            group,
        )
}

/// Whether a list holds all attached workspaces with their groups, each once.
pub open spec fn is_listing(listed: Seq<MemberView>, monitors: Seq<MonitorView>) -> bool {
    &&& forall|i: int, j: int|
        0 <= i < j < listed.len() ==> (#[trigger] listed[i]).id != (#[trigger] listed[j]).id
    &&& forall|x: u128| #[trigger]
        found(monitors, x) is Some ==> exists|i: int|
            0 <= i < listed.len() && (#[trigger] listed[i]).id == x
    &&& forall|i: int|
        0 <= i < listed.len() ==> match found(monitors, (#[trigger] listed[i]).id) {
            Some((_, workspace)) => workspace.config.spanning_group == listed[i].group,
            None => true,
        }
}

/// An instance as it is once its home is recorded.
pub open spec fn homed_view(
    monitors: Seq<MonitorView>,
    monitor: int,
    workspace: WorkspaceView,
) -> WorkspaceView {
    if workspace.home is None && workspace.config.spanning_page <= 1 {
        WorkspaceView {
            home: Some(MonitorIdentityView::of(monitors, monitor)),
            ..workspace
        }
    } else {
        workspace
    }
}

/// Whether two states have the same monitors, windows and focus.
pub open spec fn same_frame(a: StateView, b: StateView) -> bool {
    &&& same_layout(a.monitors, b.monitors)
    &&& same_tree(a.nodes, b.nodes)
    &&& a.focus_order == b.focus_order
    &&& a.window_focus_order == b.window_focus_order
    &&& a.next_id == b.next_id
}

/// Monitor that an attached workspace is on.
pub open spec fn host_of(monitors: Seq<MonitorView>, id: u128) -> int {
    match found(monitors, id) {
        Some((m, _)) => m,
        None => 0,
    }
}

/// Value of an attached workspace.
pub open spec fn value_of(monitors: Seq<MonitorView>, id: u128) -> WorkspaceView {
    match found(monitors, id) {
        Some((_, workspace)) => workspace,
        None => arbitrary(),
    }
}

/// Whether a workspace is the most recently focused one of its monitor.
pub open spec fn is_front(monitors: Seq<MonitorView>, id: u128) -> bool {
    match found(monitors, id) {
        Some((m, _)) => front(monitors[m]) == Some(id),
        None => false,
    }
}

/// Whether an identifier is among those from a position on.
pub open spec fn is_among(ids: Seq<u128>, from: int, id: u128) -> bool {
    exists|k: int| from <= k < ids.len() && #[trigger] ids[k] == id
}

/// What examining the instances of a group does to each of them.
#[verifier::opaque]
pub open spec fn is_gathered(
    state: StateView,
    next: StateView,
    listed: Seq<MemberView>,
    group: Seq<char>,
    from: int,
    staying: Seq<u128>,
    ids: Seq<u128>,
) -> bool {
    let start = staying.len() as int;
    &&& next.is_valid()
    &&& same_frame(state, next)
    &&& same_fronts(state.monitors, next.monitors)
    &&& start <= ids.len() <= start + (listed.len() - from)
    &&& forall|k: int| 0 <= k < start ==> #[trigger] ids[k] == staying[k]
    &&& forall|k: int|
        start <= k < ids.len() ==> {
            &&& is_listed(listed, group, from, #[trigger] ids[k])
            &&& found(state.monitors, ids[k]) is Some
            &&& found(next.monitors, ids[k]) == Some(
                (
                    host_of(state.monitors, ids[k]),
                    homed_view(
                        state.monitors,
                        host_of(state.monitors, ids[k]),
                        value_of(state.monitors, ids[k]),
                    ),
                ),
            )
        }
    &&& forall|k: int, l: int|
        start <= k < l < ids.len() ==> #[trigger] ids[k] != #[trigger] ids[l]
    &&& forall|x: u128|
        !is_listed(listed, group, from, x) ==> #[trigger] found(next.monitors, x) == found(
            state.monitors,
            x,
        )
    &&& forall|x: u128|
        is_listed(listed, group, from, x) && !is_among(ids, start, x) ==> #[trigger] found(
            next.monitors,
            x,
        ) is None
    &&& forall|x: u128|
        is_listed(listed, group, from, x) && #[trigger] is_front(state.monitors, x) ==> is_among(
            ids,
            start,
            x,
        )
}

pub proof fn lemma_same_frame_itself(state: StateView)
    ensures
        same_frame(state, state),
{
    lemma_keeps_itself(state);
    assert(keeps(state, state, 0));
    lemma_kept(state, state, 0);
}

pub proof fn lemma_same_frame_transitive(a: StateView, b: StateView, c: StateView)
    requires
        same_frame(a, b),
        same_frame(b, c),
    ensures
        same_frame(a, c),
{
    assert forall|i: int| #![trigger a.nodes[i]] #![trigger c.nodes[i]]
        0 <= i < a.nodes.len() implies crate::invariants::same_node(a.nodes[i], c.nodes[i]) by {
        assert(crate::invariants::same_node(a.nodes[i], b.nodes[i]));
        assert(crate::invariants::same_node(b.nodes[i], c.nodes[i]));
    }
    assert forall|i: int| #![trigger a.monitors[i]] #![trigger c.monitors[i]]
        0 <= i < a.monitors.len() implies same_screen(a.monitors[i], c.monitors[i]) by {
        assert(same_screen(a.monitors[i], b.monitors[i]));
        assert(same_screen(b.monitors[i], c.monitors[i]));
    }
}

/// What recording the home of an instance changes.
pub proof fn lemma_homed_found(state: StateView, id: u128)
    requires
        state.is_valid(),
        state.locate(id) is Some,
    ensures
        ({
            let place = state.locate(id)->0;
            let next = homed(state, place);
            &&& found(state.monitors, id) is Some
            &&& next.is_valid()
            &&& same_frame(state, next)
            &&& next.nodes == state.nodes
            &&& same_fronts(state.monitors, next.monitors)
            &&& next.locate(id) == Some(place)
            &&& next.workspace(place).id == id
            &&& found(next.monitors, id) == Some(
                (
                    host_of(state.monitors, id),
                    homed_view(
                        state.monitors,
                        host_of(state.monitors, id),
                        value_of(state.monitors, id),
                    ),
                ),
            )
            &&& same_but(state.monitors, next.monitors, id)
        }),
{
    let at = lemma_found_place(state.monitors, id);
    let place = state.locate(id)->0;
    let next = homed(state, place);
    let workspace = state.workspace(place);
    lemma_same_frame_itself(state);
    if next != state {
        let value = WorkspaceView {
            home: Some(MonitorIdentityView::of(state.monitors, place.0)),
            ..workspace
        };
        lemma_set_workspace_found(state, place, value);
        lemma_located_at(next.monitors, place.0, place.1);
        assert(next.monitors[place.0].workspaces[place.1].id == id);
    }
}

/// What is listed from a position on is listed there, or from the next one on.
pub proof fn lemma_listed_from(listed: Seq<MemberView>, group: Seq<char>, from: int, x: u128)
    requires
        0 <= from < listed.len(),
    ensures
        is_listed(listed, group, from, x) <==> (listed[from].id == x && listed[from].group == Some(
            group,
        )) || is_listed(listed, group, from + 1, x),
{
    if is_listed(listed, group, from, x) {
        let j = choose|j: int|
            from <= j < listed.len() && (#[trigger] listed[j]).id == x && listed[j].group == Some(
                group,
            );
        if j > from {
            assert(listed[j].id == x);
        }
    }
    if is_listed(listed, group, from + 1, x) {
        let j = choose|j: int|
            from + 1 <= j < listed.len() && (#[trigger] listed[j]).id == x && listed[j].group
                == Some(group);
        assert(listed[j].id == x);
    }
}

/// Examining one instance and then the rest is examining all of them.
proof fn lemma_gathered_step(
    state: StateView,
    next: StateView,
    last: StateView,
    listed: Seq<MemberView>,
    group: Seq<char>,
    from: int,
    staying: Seq<u128>,
    now_staying: Seq<u128>,
    ids: Seq<u128>,
)
    requires
        0 <= from < listed.len(),
        forall|i: int, j: int|
            0 <= i < j < listed.len() ==> (#[trigger] listed[i]).id != (#[trigger] listed[j]).id,
        listed[from].group == Some(group),
        next.is_valid(),
        same_frame(state, next),
        same_fronts(state.monitors, next.monitors),
        same_but(state.monitors, next.monitors, listed[from].id),
        found(state.monitors, listed[from].id) is Some,
        is_gathered(next, last, listed, group, from + 1, now_staying, ids),
        (now_staying == staying && found(next.monitors, listed[from].id) is None && !is_front(
            state.monitors,
            listed[from].id,
        )) || (now_staying == staying.push(listed[from].id) && found(
            next.monitors,
            listed[from].id,
        ) == Some(
            (
                host_of(state.monitors, listed[from].id),
                homed_view(
                    state.monitors,
                    host_of(state.monitors, listed[from].id),
                    value_of(state.monitors, listed[from].id),
                ),
            ),
        )),
    ensures
        is_gathered(state, last, listed, group, from, staying, ids),
{
    reveal(is_gathered);
    let id = listed[from].id;
    let start = staying.len() as int;
    let now = now_staying.len() as int;
    lemma_same_frame_transitive(state, next, last);
    assert forall|x: u128| #[trigger] is_listed(listed, group, from, x) <==> x == id || is_listed(
        listed,
        group,
        from + 1,
        x,
    ) by {
        lemma_listed_from(listed, group, from, x);
    }
    assert(!is_listed(listed, group, from + 1, id)) by {
        if is_listed(listed, group, from + 1, id) {
            let j = choose|j: int|
                from + 1 <= j < listed.len() && (#[trigger] listed[j]).id == id && listed[j].group
                    == Some(group);
            assert(listed[from].id != listed[j].id);
        }
    }
    assert(found(last.monitors, id) == found(next.monitors, id));
    assert forall|m: int| 0 <= m < state.monitors.len() && front(
        #[trigger] state.monitors[m],
    ) is Some implies front(last.monitors[m]) == front(state.monitors[m]) by {
        assert(front(next.monitors[m]) == front(state.monitors[m]));
    }
    assert forall|k: int| 0 <= k < start implies #[trigger] ids[k] == staying[k] by {
        assert(ids[k] == now_staying[k]);
    }
    assert(now > start ==> ids[start] == id) by {
        if now > start {
            assert(ids[start] == now_staying[start]);
        }
    }
    assert forall|k: int| start <= k < ids.len() implies {
        &&& is_listed(listed, group, from, #[trigger] ids[k])
        &&& found(state.monitors, ids[k]) is Some
        &&& found(last.monitors, ids[k]) == Some(
            (
                host_of(state.monitors, ids[k]),
                homed_view(
                    state.monitors,
                    host_of(state.monitors, ids[k]),
                    value_of(state.monitors, ids[k]),
                ),
            ),
        )
    } by {
        if k >= now {
            let x = ids[k];
            assert(is_listed(listed, group, from + 1, x));
            assert(x != id);
            assert(found(next.monitors, x) == found(state.monitors, x));
            let l = lemma_found_place(state.monitors, x);
            lemma_identity_of_layout(
                state.monitors,
                next.monitors,
                host_of(state.monitors, x),
            );
        }
    }
    assert forall|k: int, l: int| start <= k < l < ids.len() implies #[trigger] ids[k]
        != #[trigger] ids[l] by {
        assert(is_listed(listed, group, from + 1, ids[l]));
        if k >= now {
            assert(is_listed(listed, group, from + 1, ids[k]));
        }
    }
    assert forall|x: u128| !is_listed(listed, group, from, x) implies #[trigger] found(
        last.monitors,
        x,
    ) == found(state.monitors, x) by {
        assert(found(next.monitors, x) == found(state.monitors, x));
    }
    assert forall|x: u128|
        is_listed(listed, group, from, x) && !is_among(ids, start, x) implies #[trigger] found(
        last.monitors,
        x,
    ) is None by {
        if x == id {
            if now > start {
                assert(ids[start] == id);
            }
        } else {
            if is_among(ids, now, x) {
                let k = choose|k: int| now <= k < ids.len() && #[trigger] ids[k] == x;
                assert(ids[k] == x);
            }
        }
    }
    assert forall|x: u128|
        is_listed(listed, group, from, x) && #[trigger] is_front(
            state.monitors,
            x,
        ) implies is_among(ids, start, x) by {
        if x == id {
            assert(ids[start] == id);
        } else {
            assert(found(next.monitors, x) == found(state.monitors, x));
            let l = lemma_found_place(state.monitors, x);
            let m = host_of(state.monitors, x);
            assert(front(next.monitors[m]) == front(state.monitors[m]));
            assert(is_front(next.monitors, x));
            let k = choose|k: int| now <= k < ids.len() && #[trigger] ids[k] == x;
            assert(ids[k] == x);
        }
    }
}

/// What examining the instances of a group does to each of them.
pub proof fn lemma_gathered(
    state: StateView,
    listed: Seq<MemberView>,
    group: Seq<char>,
    from: int,
    staying: Seq<u128>,
    changed: bool,
)
    requires
        state.is_valid(),
        0 <= from <= listed.len(),
        forall|i: int, j: int|
            0 <= i < j < listed.len() ==> (#[trigger] listed[i]).id != (#[trigger] listed[j]).id,
        gathered(state, listed, group, from, staying, changed).1 is Ok,
    ensures
        is_gathered(
            state,
            gathered(state, listed, group, from, staying, changed).0,
            listed,
            group,
            from,
            staying,
            gathered_ids(state, listed, group, from, staying, changed),
        ),
    decreases listed.len() - from,
{
    let last = gathered(state, listed, group, from, staying, changed).0;
    let ids = gathered_ids(state, listed, group, from, staying, changed);
    if from == listed.len() {
        reveal(is_gathered);
        lemma_same_frame_itself(state);
    } else if listed[from].group != Some(group) {
        lemma_gathered(state, listed, group, from + 1, staying, changed);
        reveal(is_gathered);
        assert forall|x: u128| #[trigger] is_listed(listed, group, from, x) <==> is_listed(
            listed,
            group,
            from + 1,
            x,
        ) by {
            lemma_listed_from(listed, group, from, x);
        }
    } else {
        let id = listed[from].id;
        let place = state.locate(id)->0;
        let known = homed(state, place);
        lemma_homed_found(state, id);
        if is_disposable(known, place) {
            let next = known.deactivate(id).0;
            lemma_deactivate_found(known, id);
            assert(same_frame(known, next)) by {
                lemma_same_frame_itself(known);
            }
            lemma_same_frame_transitive(state, known, next);
            lemma_gathered(next, listed, group, from + 1, staying, true);
            assert(same_but(state.monitors, next.monitors, id)) by {
                assert forall|x: u128| x != id implies #[trigger] found(next.monitors, x) == found(
                    state.monitors,
                    x,
                ) by {
                    assert(found(known.monitors, x) == found(state.monitors, x));
                }
            }
            assert(!is_front(state.monitors, id)) by {
                if is_front(state.monitors, id) {
                    let k = lemma_found_place(state.monitors, id);
                    let m = host_of(state.monitors, id);
                    assert(front(known.monitors[m]) == Some(id));
                    assert(known.monitors[m].focus_order[0] == id);
                    lemma_located_at(known.monitors, place.0, place.1);
                    assert(known.is_displayed(id));
                }
            }
            assert(same_fronts(state.monitors, next.monitors)) by {
                assert forall|m: int| 0 <= m < state.monitors.len() && front(
                    #[trigger] state.monitors[m],
                ) is Some implies front(next.monitors[m]) == front(state.monitors[m]) by {
                    assert(front(known.monitors[m]) == front(state.monitors[m]));
                }
            }
            lemma_gathered_step(
                state,
                next,
                last,
                listed,
                group,
                from,
                staying,
                staying,
                ids,
            );
        } else {
            lemma_gathered(known, listed, group, from + 1, staying.push(id), changed);
            lemma_gathered_step(
                state,
                known,
                last,
                listed,
                group,
                from,
                staying,
                staying.push(id),
                ids,
            );
        }
    }
}

/// Identifiers of the instances that stay.
pub open spec fn gathered_ids(
    state: StateView,
    listed: Seq<MemberView>,
    group: Seq<char>,
    from: int,
    staying: Seq<u128>,
    changed: bool,
) -> Seq<u128> {
    match gathered(state, listed, group, from, staying, changed).1 {
        Ok((ids, _)) => ids,
        Err(_) => Seq::empty(),
    }
}

/// The instances that are found are those that stay.
pub proof fn lemma_found_workspaces(state: StateView, ids: Seq<u128>, count: nat)
    requires
        count <= ids.len(),
        forall|k: int| 0 <= k < ids.len() ==> found(state.monitors, #[trigger] ids[k]) is Some,
    ensures
        found_workspaces(state, ids, count).len() == count,
        forall|k: int|
            0 <= k < count ==> #[trigger] found_workspaces(state, ids, count)[k] == value_of(
                state.monitors,
                ids[k],
            ),
    decreases count,
{
    if count > 0 {
        lemma_found_workspaces(state, ids, (count - 1) as nat);
        assert(found(state.monitors, ids[count - 1]) is Some);
    }
}

/// The value of a placed instance depends on the screens only.
proof fn lemma_placed_view_of_layout(
    a: Seq<MonitorView>,
    b: Seq<MonitorView>,
    workspace: WorkspaceView,
    placement: PagePlacement,
    group: WorkspaceConfigView,
)
    requires
        same_layout(a, b),
        placement.monitor < a.len(),
    ensures
        placed_view(a, workspace, placement, group) == placed_view(b, workspace, placement, group),
{
    assert(same_screen(a[placement.monitor as int], b[placement.monitor as int]));
    lemma_identity_of_layout(a, b, placement.monitor as int);
}

/// Whether a workspace is placed by one of the placements from a position on.
pub open spec fn is_placed_by(placements: Seq<PagePlacement>, from: int, id: u128) -> bool {
    exists|k: int| from <= k < placements.len() && (#[trigger] placements[k]).workspace == id
}

/// What applying placements does to each instance.
#[verifier::opaque]
pub open spec fn are_placed(
    state: StateView,
    next: StateView,
    placements: Seq<PagePlacement>,
    group: WorkspaceConfigView,
    from: int,
) -> bool {
    &&& next.is_valid()
    &&& same_frame(state, next)
    &&& forall|k: int|
        from <= k < placements.len() ==> found(
            next.monitors,
            (#[trigger] placements[k]).workspace,
        ) == Some(
            (
                placements[k].monitor as int,
                placed_view(
                    state.monitors,
                    value_of(state.monitors, placements[k].workspace),
                    placements[k],
                    group,
                ),
            ),
        )
    &&& forall|x: u128|
        !is_placed_by(placements, from, x) ==> #[trigger] found(next.monitors, x) == found(
            state.monitors,
            x,
        )
    &&& forall|n: int|
        0 <= n < state.monitors.len() && front(#[trigger] state.monitors[n]) is Some
            && !(exists|k: int|
            from <= k < placements.len() && Some((#[trigger] placements[k]).workspace) == front(
                state.monitors[n],
            ) && placements[k].monitor != n) ==> front(next.monitors[n]) == front(
            state.monitors[n],
        )
}

pub proof fn lemma_are_placed(
    state: StateView,
    placements: Seq<PagePlacement>,
    group: WorkspaceConfigView,
    from: int,
    changed: bool,
)
    requires
        state.is_valid(),
        0 <= from <= placements.len(),
        forall|k: int|
            0 <= k < placements.len() ==> (#[trigger] placements[k]).monitor
                < state.monitors.len(),
        forall|k: int|
            from <= k < placements.len() ==> found(
                state.monitors,
                (#[trigger] placements[k]).workspace,
            ) is Some && windows_fit(state, placements[k].workspace),
        forall|k: int, l: int|
            0 <= k < l < placements.len() ==> (#[trigger] placements[k]).workspace != (
            #[trigger] placements[l]).workspace,
    ensures
        placements_applied(state, placements, group, from, changed).1 is Ok,
        are_placed(
            state,
            placements_applied(state, placements, group, from, changed).0,
            placements,
            group,
            from,
        ),
    decreases placements.len() - from,
{
    let last = placements_applied(state, placements, group, from, changed).0;
    if from == placements.len() {
        reveal(are_placed);
        lemma_same_frame_itself(state);
    } else {
        let placement = placements[from];
        let id = placement.workspace;
        let (next, result) = placement_applied(state, placement, group);
        lemma_placement_found(state, placement, group);
        let now = changed || result->Ok_0;
        assert(next.is_valid() && same_but(
            state.monitors,
            next.monitors,
            id,
        ) && same_layout(state.monitors, next.monitors) && same_frame(state, next)) by {
            reveal(is_placed);
        }
        assert forall|k: int| from + 1 <= k < placements.len() implies found(
            next.monitors,
            (#[trigger] placements[k]).workspace,
        ) is Some && windows_fit(next, placements[k].workspace) by {
            lemma_windows_still_fit(state, next, placements[k].workspace);
            assert(placements[from].workspace != placements[k].workspace);
            assert(found(next.monitors, placements[k].workspace) == found(
                state.monitors,
                placements[k].workspace,
            ));
        }
        lemma_are_placed(next, placements, group, from + 1, now);
        reveal(are_placed);
        lemma_same_frame_transitive(state, next, last);
        assert(!is_placed_by(placements, from + 1, id)) by {
            if is_placed_by(placements, from + 1, id) {
                let k = choose|k: int|
                    from + 1 <= k < placements.len() && (#[trigger] placements[k]).workspace == id;
                assert(placements[from].workspace != placements[k].workspace);
            }
        }
        assert forall|k: int| from <= k < placements.len() implies found(
            last.monitors,
            (#[trigger] placements[k]).workspace,
        ) == Some(
            (
                placements[k].monitor as int,
                placed_view(
                    state.monitors,
                    value_of(state.monitors, placements[k].workspace),
                    placements[k],
                    group,
                ),
            ),
        ) by {
            if k == from {
                reveal(is_placed);
                assert(found(last.monitors, id) == found(next.monitors, id));
            } else {
                assert(placements[from].workspace != placements[k].workspace);
                assert(found(next.monitors, placements[k].workspace) == found(
                    state.monitors,
                    placements[k].workspace,
                ));
                lemma_placed_view_of_layout(
                    state.monitors,
                    next.monitors,
                    value_of(state.monitors, placements[k].workspace),
                    placements[k],
                    group,
                );
            }
        }
        assert forall|x: u128| !is_placed_by(placements, from, x) implies #[trigger] found(
            last.monitors,
            x,
        ) == found(state.monitors, x) by {
            if x == id {
                assert(placements[from].workspace == x);
            }
            if is_placed_by(placements, from + 1, x) {
                let k = choose|k: int|
                    from + 1 <= k < placements.len() && (#[trigger] placements[k]).workspace == x;
                assert(placements[k].workspace == x);
            }
            assert(found(next.monitors, x) == found(state.monitors, x));
        }
        assert forall|n: int|
            0 <= n < state.monitors.len() && front(#[trigger] state.monitors[n]) is Some
                && !(exists|k: int|
                from <= k < placements.len() && Some((#[trigger] placements[k]).workspace) == front(
                    state.monitors[n],
                ) && placements[k].monitor != n) implies front(last.monitors[n]) == front(
            state.monitors[n],
        ) by {
            assert(front(next.monitors[n]) == front(state.monitors[n])) by {
                reveal(is_placed);
                if Some(placements[from].workspace) == front(state.monitors[n]) {
                    assert(placements[from].monitor == n);
                }
            }
        }
    }
}

/// The state after the instances of a group were examined.
pub open spec fn gathered_state(
    state: StateView,
    listed: Seq<MemberView>,
    group: Seq<char>,
) -> StateView {
    gathered(state, listed, group, 0, Seq::empty(), false).0
}

/// The instances of a group that stay.
pub open spec fn group_instances(
    state: StateView,
    listed: Seq<MemberView>,
    group: Seq<char>,
) -> Seq<WorkspaceView> {
    let ids = gathered_ids(state, listed, group, 0, Seq::empty(), false);
    found_workspaces(gathered_state(state, listed, group), ids, ids.len())
}

/// Placements of the instances of a group.
pub open spec fn group_plan(
    state: StateView,
    listed: Seq<MemberView>,
    group: Seq<char>,
) -> Seq<PagePlacement> {
    page_placements(
        group_instances(state, listed, group),
        gathered_state(state, listed, group).monitors,
    )
}

/// Whether anything changed before makes no difference to what is examined and found.
pub proof fn lemma_gathered_ignores_changes(
    state: StateView,
    listed: Seq<MemberView>,
    group: Seq<char>,
    from: int,
    staying: Seq<u128>,
    a: bool,
    b: bool,
)
    requires
        0 <= from <= listed.len(),
    ensures
        gathered(state, listed, group, from, staying, a).0 == gathered(
            state,
            listed,
            group,
            from,
            staying,
            b,
        ).0,
        gathered(state, listed, group, from, staying, a).1 is Ok == gathered(
            state,
            listed,
            group,
            from,
            staying,
            b,
        ).1 is Ok,
        gathered_ids(state, listed, group, from, staying, a) == gathered_ids(
            state,
            listed,
            group,
            from,
            staying,
            b,
        ),
    decreases listed.len() - from,
{
    if from < listed.len() {
        if listed[from].group != Some(group) {
            lemma_gathered_ignores_changes(state, listed, group, from + 1, staying, a, b);
        } else {
            let id = listed[from].id;
            if let Some(place) = state.locate(id) {
                let known = homed(state, place);
                if !is_disposable(known, place) {
                    lemma_gathered_ignores_changes(
                        known,
                        listed,
                        group,
                        from + 1,
                        staying.push(id),
                        a,
                        b,
                    );
                }
            }
        }
    }
}

/// What examining the instances of a group leaves of each workspace.
#[verifier::opaque]
pub open spec fn gathers(
    a: Seq<MonitorView>,
    b: Seq<MonitorView>,
    group: Seq<char>,
    ids: Seq<u128>,
) -> bool {
    &&& same_fronts(a, b)
    &&& forall|k: int| 0 <= k < ids.len() ==> is_instance(a, #[trigger] ids[k], group)
    &&& forall|k: int, l: int| 0 <= k < l < ids.len() ==> #[trigger] ids[k] != #[trigger] ids[l]
    &&& forall|x: u128|
        !is_instance(a, x, group) ==> #[trigger] found(b, x) == found(a, x)
    &&& forall|x: u128|
        is_instance(a, x, group) && is_among(ids, 0, x) ==> #[trigger] found(b, x) == Some(
            (host_of(a, x), homed_view(a, host_of(a, x), value_of(a, x))),
        )
    &&& forall|x: u128|
        is_instance(a, x, group) && !is_among(ids, 0, x) ==> #[trigger] found(b, x) is None
    &&& forall|x: u128|
        is_instance(a, x, group) && #[trigger] is_front(a, x) ==> is_among(ids, 0, x)
}

/// The instances that stay, with their homes recorded.
#[verifier::opaque]
pub open spec fn are_instances(
    a: Seq<MonitorView>,
    group: Seq<char>,
    instances: Seq<WorkspaceView>,
) -> bool {
    &&& forall|i: int, j: int|
        0 <= i < j < instances.len() ==> (#[trigger] instances[i]).id != (
        #[trigger] instances[j]).id
    &&& forall|i: int|
        0 <= i < instances.len() ==> {
            let workspace = #[trigger] instances[i];
            &&& is_instance(a, workspace.id, group)
            &&& workspace == homed_view(
                a,
                host_of(a, workspace.id),
                value_of(a, workspace.id),
            )
        }
}

/// Whether placements are of all the instances, each once.
#[verifier::opaque]
pub open spec fn is_plan(
    monitors: nat,
    instances: Seq<WorkspaceView>,
    plan: Seq<PagePlacement>,
) -> bool {
    &&& plan.len() == instances.len()
    &&& forall|k: int|
        0 <= k < plan.len() ==> {
            let placement = #[trigger] plan[k];
            &&& placement.instance < instances.len()
            &&& placement.monitor < monitors
            &&& placement.page >= 1
            &&& placement.workspace == instances[placement.instance as int].id
        }
    &&& forall|k: int, l: int|
        0 <= k < l < plan.len() ==> (#[trigger] plan[k]).workspace != (#[trigger] plan[l]).workspace
    &&& forall|i: int|
        0 <= i < instances.len() ==> is_placed_by(plan, 0, (#[trigger] instances[i]).id)
}

/// Where the placed instances are, and what they are.
#[verifier::opaque]
pub open spec fn plan_holds(
    a: Seq<MonitorView>,
    c: Seq<MonitorView>,
    group: Seq<char>,
    instances: Seq<WorkspaceView>,
    plan: Seq<PagePlacement>,
) -> bool {
    forall|k: int|
        0 <= k < plan.len() ==> {
            let placement = #[trigger] plan[k];
            let value = value_of(c, placement.workspace);
            &&& found(c, placement.workspace) == Some((placement.monitor as int, value))
            &&& in_group(value, group)
            &&& value.config.spanning_page == placement.page
            &&& value.home == if placement.is_home {
                Some(MonitorIdentityView::of(a, placement.monitor as int))
            } else {
                instances[placement.instance as int].home
            }
        }
}

/// What becomes of all other workspaces, and of what the monitors display.
#[verifier::opaque]
pub open spec fn others_stay(
    a: Seq<MonitorView>,
    c: Seq<MonitorView>,
    group: Seq<char>,
    plan: Seq<PagePlacement>,
) -> bool {
    &&& forall|x: u128| #[trigger] is_instance(c, x, group) ==> is_placed_by(plan, 0, x)
    &&& forall|x: u128|
        !is_instance(a, x, group) ==> #[trigger] found(c, x) == found(a, x)
    &&& forall|x: u128|
        is_instance(a, x, group) && !is_placed_by(plan, 0, x) ==> #[trigger] found(c, x) is None
    &&& forall|x: u128|
        is_instance(a, x, group) && #[trigger] is_front(a, x) ==> is_placed_by(plan, 0, x)
    &&& forall|n: int|
        0 <= n < a.len() && front(#[trigger] a[n]) is Some && !(exists|k: int|
            0 <= k < plan.len() && Some((#[trigger] plan[k]).workspace) == front(a[n])
                && plan[k].monitor != n) ==> front(c[n]) == front(a[n])
}

/// What distributing the instances of a group does to each workspace.
#[verifier::opaque]
pub open spec fn is_pass(
    state: StateView,
    next: StateView,
    listed: Seq<MemberView>,
    group: Seq<char>,
    middle: Seq<MonitorView>,
    instances: Seq<WorkspaceView>,
    plan: Seq<PagePlacement>,
) -> bool {
    &&& next.is_valid()
    &&& placements_fit(next)
    &&& same_frame(state, next)
    &&& is_listing(listed, state.monitors)
    &&& is_listing(listed, next.monitors)
    &&& same_layout(state.monitors, middle)
    &&& 0 < middle.len() <= usize::MAX
    &&& instances.len() <= usize::MAX
    &&& plan == page_placements(instances, middle)
    &&& are_instances(state.monitors, group, instances)
    &&& is_plan(middle.len(), instances, plan)
    &&& plan_holds(state.monitors, next.monitors, group, instances, plan)
    &&& others_stay(state.monitors, next.monitors, group, plan)
}

/// Whether the instances of a group were distributed.
pub open spec fn is_repaged(
    state: StateView,
    next: StateView,
    listed: Seq<MemberView>,
    group: Seq<char>,
) -> bool {
    is_pass(
        state,
        next,
        listed,
        group,
        gathered_state(state, listed, group).monitors,
        group_instances(state, listed, group),
        group_plan(state, listed, group),
    )
}

/// What an instance is listed as.
pub proof fn lemma_listed_instance(
    listed: Seq<MemberView>,
    monitors: Seq<MonitorView>,
    group: Seq<char>,
    x: u128,
)
    requires
        is_listing(listed, monitors),
        found(monitors, x) is Some,
    ensures
        is_listed(listed, group, 0, x) <==> is_instance(monitors, x, group),
{
    let i = choose|i: int| 0 <= i < listed.len() && (#[trigger] listed[i]).id == x;
    if is_listed(listed, group, 0, x) {
        let j = choose|j: int|
            0 <= j < listed.len() && (#[trigger] listed[j]).id == x && listed[j].group == Some(
                group,
            );
        assert(found(monitors, listed[j].id) is Some);
    }
    if is_instance(monitors, x, group) {
        assert(listed[i].group == Some(group));
    }
}

proof fn lemma_gathers(
    state: StateView,
    middle: StateView,
    listed: Seq<MemberView>,
    group: Seq<char>,
    ids: Seq<u128>,
)
    requires
        is_listing(listed, state.monitors),
        is_gathered(state, middle, listed, group, 0, Seq::empty(), ids),
    ensures
        gathers(state.monitors, middle.monitors, group, ids),
{
    reveal(is_gathered);
    let (a, b) = (state.monitors, middle.monitors);
    assert forall|k: int| 0 <= k < ids.len() implies is_instance(a, #[trigger] ids[k], group) by {
        lemma_listed_instance(listed, a, group, ids[k]);
    }
    assert forall|x: u128| !is_instance(a, x, group) implies #[trigger] found(b, x) == found(a, x) by {
        if found(a, x) is Some {
            lemma_listed_instance(listed, a, group, x);
        } else if is_listed(listed, group, 0, x) {
            assert(!is_among(ids, 0, x));
        }
    }
    assert forall|x: u128| is_instance(a, x, group) && is_among(ids, 0, x) implies
        #[trigger] found(b, x) == Some(
        (host_of(a, x), homed_view(a, host_of(a, x), value_of(a, x))),
    ) by {
        let k = choose|k: int| 0 <= k < ids.len() && #[trigger] ids[k] == x;
        assert(found(a, ids[k]) is Some);
    }
    assert forall|x: u128|
        is_instance(a, x, group) && !is_among(ids, 0, x) implies #[trigger] found(b, x) is None by {
        lemma_listed_instance(listed, a, group, x);
    }
    assert forall|x: u128| is_instance(a, x, group) && #[trigger] is_front(a, x) implies is_among(
        ids,
        0,
        x,
    ) by {
        lemma_listed_instance(listed, a, group, x);
    }
    reveal(gathers);
}

proof fn lemma_are_instances(
    a: Seq<MonitorView>,
    b: Seq<MonitorView>,
    group: Seq<char>,
    ids: Seq<u128>,
    instances: Seq<WorkspaceView>,
)
    requires
        gathers(a, b, group, ids),
        instances.len() == ids.len(),
        forall|k: int|
            0 <= k < ids.len() ==> #[trigger] instances[k] == value_of(b, ids[k]),
    ensures
        are_instances(a, group, instances),
        forall|k: int|
            0 <= k < ids.len() ==> (#[trigger] instances[k]).id == ids[k] && found(
                b,
                ids[k],
            ) is Some,
{
    reveal(gathers);
    assert forall|k: int| 0 <= k < ids.len() implies (#[trigger] instances[k]).id == ids[k]
        && found(b, ids[k]) is Some by {
        assert(is_instance(a, ids[k], group) && is_among(ids, 0, ids[k]));
        assert(found(b, ids[k]) is Some);
        let at = lemma_found_place(b, ids[k]);
    }
    assert forall|i: int, j: int| 0 <= i < j < instances.len() implies (
    #[trigger] instances[i]).id != (#[trigger] instances[j]).id by {
        assert(ids[i] != ids[j]);
    }
    assert forall|i: int| 0 <= i < instances.len() implies {
        let workspace = #[trigger] instances[i];
        &&& is_instance(a, workspace.id, group)
        &&& workspace == homed_view(a, host_of(a, workspace.id), value_of(a, workspace.id))
    } by {
        assert(instances[i].id == ids[i]);
        assert(is_instance(a, ids[i], group) && is_among(ids, 0, ids[i]));
        assert(found(b, ids[i]) is Some);
    }
    reveal(are_instances);
}

/// Instances with different identifiers are all placed, each once.
pub proof fn lemma_is_plan(instances: Seq<WorkspaceView>, monitors: Seq<MonitorView>)
    requires
        instances.len() <= usize::MAX,
        0 < monitors.len() <= usize::MAX,
        forall|i: int, j: int|
            0 <= i < j < instances.len() ==> (#[trigger] instances[i]).id != (
            #[trigger] instances[j]).id,
    ensures
        is_plan(monitors.len(), instances, page_placements(instances, monitors)),
{
    let plan = page_placements(instances, monitors);
    law_every_instance_is_placed_once(instances, monitors);
    lemma_pages_are_compact(instances, monitors);
    assert forall|k: int, l: int| 0 <= k < l < plan.len() implies (#[trigger] plan[k]).workspace
        != (#[trigger] plan[l]).workspace by {
        let (i, j) = (plan[k].instance as int, plan[l].instance as int);
        assert(i != j);
        if i < j {
            assert(instances[i].id != instances[j].id);
        } else {
            assert(instances[j].id != instances[i].id);
        }
    }
    assert forall|i: int| 0 <= i < instances.len() implies is_placed_by(
        plan,
        0,
        (#[trigger] instances[i]).id,
    ) by {
        assert(places_instance(plan, i as usize));
        let k = choose|k: int| 0 <= k < plan.len() && (#[trigger] plan[k]).instance == i;
        assert(plan[k].workspace == instances[i].id);
    }
    reveal(is_plan);
}

proof fn lemma_plan_holds(
    state: StateView,
    middle: StateView,
    next: StateView,
    group: WorkspaceConfigView,
    ids: Seq<u128>,
    instances: Seq<WorkspaceView>,
    plan: Seq<PagePlacement>,
)
    requires
        same_layout(state.monitors, middle.monitors),
        gathers(state.monitors, middle.monitors, group.name, ids),
        instances.len() == ids.len(),
        forall|k: int|
            0 <= k < ids.len() ==> #[trigger] instances[k] == value_of(middle.monitors, ids[k]),
        is_plan(middle.monitors.len(), instances, plan),
        are_placed(middle, next, plan, group, 0),
    ensures
        plan_holds(state.monitors, next.monitors, group.name, instances, plan),
{
    let (a, b, c) = (state.monitors, middle.monitors, next.monitors);
    lemma_are_instances(a, b, group.name, ids, instances);
    assert forall|k: int| 0 <= k < plan.len() implies {
        let placement = #[trigger] plan[k];
        let value = value_of(c, placement.workspace);
        &&& found(c, placement.workspace) == Some((placement.monitor as int, value))
        &&& in_group(value, group.name)
        &&& value.config.spanning_page == placement.page
        &&& value.home == if placement.is_home {
            Some(MonitorIdentityView::of(a, placement.monitor as int))
        } else {
            instances[placement.instance as int].home
        }
    } by {
        reveal(is_plan);
        reveal(are_placed);
        let i = plan[k].instance as int;
        assert(instances[i].id == ids[i]);
        assert(instances[i] == value_of(b, ids[i]));
        lemma_identity_of_layout(a, b, plan[k].monitor as int);
        assert(in_group(instances[i], group.name)) by {
            reveal(are_instances);
            assert(is_instance(a, instances[i].id, group.name));
        }
    }
    reveal(plan_holds);
}

proof fn lemma_others_stay(
    state: StateView,
    middle: StateView,
    next: StateView,
    group: WorkspaceConfigView,
    ids: Seq<u128>,
    instances: Seq<WorkspaceView>,
    plan: Seq<PagePlacement>,
)
    requires
        state.monitors.len() == middle.monitors.len(),
        gathers(state.monitors, middle.monitors, group.name, ids),
        instances.len() == ids.len(),
        forall|k: int| 0 <= k < ids.len() ==> (#[trigger] instances[k]).id == ids[k],
        is_plan(middle.monitors.len(), instances, plan),
        are_placed(middle, next, plan, group, 0),
    ensures
        others_stay(state.monitors, next.monitors, group.name, plan),
{
    let g = group.name;
    let (a, b, c) = (state.monitors, middle.monitors, next.monitors);
    assert forall|x: u128| is_placed_by(plan, 0, x) <==> is_among(ids, 0, x) by {
        reveal(is_plan);
        if is_placed_by(plan, 0, x) {
            let k = choose|k: int| 0 <= k < plan.len() && (#[trigger] plan[k]).workspace == x;
            let i = plan[k].instance as int;
            assert(instances[i].id == ids[i]);
        }
        if is_among(ids, 0, x) {
            let i = choose|i: int| 0 <= i < ids.len() && #[trigger] ids[i] == x;
            assert(instances[i].id == x);
        }
    }
    assert forall|x: u128| !is_placed_by(plan, 0, x) implies #[trigger] found(c, x) == found(b, x) by {
        reveal(are_placed);
    }
    assert forall|x: u128| is_among(ids, 0, x) implies #[trigger] is_instance(a, x, g) by {
        reveal(gathers);
        let k = choose|k: int| 0 <= k < ids.len() && #[trigger] ids[k] == x;
    }
    assert forall|x: u128| !is_instance(a, x, g) implies #[trigger] found(c, x) == found(a, x) by {
        assert(!is_among(ids, 0, x));
        assert(found(c, x) == found(b, x));
        assert(found(b, x) == found(a, x)) by {
            reveal(gathers);
        }
    }
    assert forall|x: u128| is_instance(a, x, g) && !is_placed_by(plan, 0, x) implies
        #[trigger] found(c, x) is None by {
        assert(found(c, x) == found(b, x));
        assert(found(b, x) is None) by {
            reveal(gathers);
        }
    }
    assert forall|x: u128| is_instance(a, x, g) && #[trigger] is_front(a, x) implies is_placed_by(
        plan,
        0,
        x,
    ) by {
        reveal(gathers);
        assert(is_among(ids, 0, x));
    }
    assert forall|n: int|
        0 <= n < a.len() && front(#[trigger] a[n]) is Some && !(exists|k: int|
            0 <= k < plan.len() && Some((#[trigger] plan[k]).workspace) == front(a[n])
                && plan[k].monitor != n) implies front(c[n]) == front(a[n]) by {
        assert(front(b[n]) == front(a[n])) by {
            reveal(gathers);
        }
        reveal(are_placed);
    }
    assert forall|x: u128| #[trigger] is_instance(c, x, g) implies is_placed_by(plan, 0, x) by {
        if !is_placed_by(plan, 0, x) {
            if is_instance(a, x, g) {
                assert(found(c, x) is None);
            } else {
                assert(found(c, x) == found(a, x));
            }
        }
    }
    reveal(others_stay);
}

/// The list stays one of all workspaces while instances of a group are distributed.
proof fn lemma_still_listing(
    listed: Seq<MemberView>,
    a: Seq<MonitorView>,
    c: Seq<MonitorView>,
    group: Seq<char>,
    instances: Seq<WorkspaceView>,
    plan: Seq<PagePlacement>,
)
    requires
        is_listing(listed, a),
        plan_holds(a, c, group, instances, plan),
        others_stay(a, c, group, plan),
    ensures
        is_listing(listed, c),
{
    assert forall|x: u128| #[trigger] found(c, x) is Some implies found(a, x) is Some && value_of(
        c,
        x,
    ).config.spanning_group == value_of(a, x).config.spanning_group by {
        reveal(others_stay);
        if is_instance(a, x, group) {
            assert(is_placed_by(plan, 0, x));
            let k = choose|k: int| 0 <= k < plan.len() && (#[trigger] plan[k]).workspace == x;
            reveal(plan_holds);
            assert(in_group(value_of(c, plan[k].workspace), group));
        } else {
            assert(found(c, x) == found(a, x));
        }
    }
    assert forall|x: u128| #[trigger] found(c, x) is Some implies exists|i: int|
        0 <= i < listed.len() && (#[trigger] listed[i]).id == x by {
        assert(found(a, x) is Some);
    }
    assert forall|i: int| 0 <= i < listed.len() implies match found(c, (#[trigger] listed[i]).id) {
        Some((_, workspace)) => workspace.config.spanning_group == listed[i].group,
        None => true,
    } by {
        if found(c, listed[i].id) is Some {
            assert(found(a, listed[i].id) is Some);
        }
    }
}

/// The windows of an instance fit if those of all spanning workspaces do.
proof fn lemma_found_instance_may_span(state: StateView, id: u128, group: Seq<char>)
    requires
        is_instance(state.monitors, id, group),
    ensures
        may_span(state, id),
{
    let at = lemma_found_place(state.monitors, id);
    lemma_instance_may_span(state, host_of(state.monitors, id), at);
}

/// The windows of spanning workspaces fit as long as all workspaces stay in their groups.
proof fn lemma_listing_still_fits(a: StateView, b: StateView, listed: Seq<MemberView>)
    requires
        a.is_valid(),
        b.is_valid(),
        placements_fit(a),
        same_frame(a, b),
        is_listing(listed, a.monitors),
        is_listing(listed, b.monitors),
        forall|x: u128| #[trigger] found(b.monitors, x) is Some ==> found(a.monitors, x) is Some,
    ensures
        placements_fit(b),
{
    assert forall|m: int, k: int|
        0 <= m < b.monitors.len() && 0 <= k < b.monitors[m].workspaces.len() && is_spanning(
            #[trigger] b.monitors[m].workspaces[k],
        ) implies may_span(a, b.monitors[m].workspaces[k].id) by {
        let id = b.monitors[m].workspaces[k].id;
        lemma_found_at(b.monitors, m, k);
        assert(found(a.monitors, id) is Some);
        lemma_listing_keeps_group(listed, a.monitors, b.monitors, id);
        let group = value_of(b.monitors, id).config.spanning_group->0;
        lemma_found_instance_may_span(a, id, group);
    }
    lemma_placements_still_fit(a, b);
}

/// Distributing the instances of a group puts each where its placement says.
pub proof fn lemma_group_repaged(
    state: StateView,
    listed: Seq<MemberView>,
    group: WorkspaceConfigView,
    changed: bool,
)
    requires
        state.is_valid(),
        placements_fit(state),
        is_listing(listed, state.monitors),
        0 < state.monitors.len() <= usize::MAX,
        listed.len() <= usize::MAX,
        group_repaged(state, listed, group, changed).1 is Ok,
    ensures
        is_repaged(state, group_repaged(state, listed, group, changed).0, listed, group.name),
{
    let g = group.name;
    let empty = Seq::<u128>::empty();
    lemma_gathered_ignores_changes(state, listed, g, 0, empty, changed, false);
    lemma_gathered(state, listed, g, 0, empty, false);
    let middle = gathered_state(state, listed, g);
    let ids = gathered_ids(state, listed, g, 0, empty, false);
    let instances = group_instances(state, listed, g);
    let plan = group_plan(state, listed, g);
    let next = group_repaged(state, listed, group, changed).0;
    let (a, b) = (state.monitors, middle.monitors);
    assert(is_gathered(state, middle, listed, g, 0, empty, ids));
    lemma_gathers(state, middle, listed, g, ids);
    assert(ids.len() <= listed.len() && middle.is_valid() && same_frame(
        state,
        middle,
    )) by {
        reveal(is_gathered);
    }
    assert forall|k: int| 0 <= k < ids.len() implies found(b, #[trigger] ids[k]) is Some by {
        reveal(is_gathered);
    }
    lemma_found_workspaces(middle, ids, ids.len());
    lemma_are_instances(a, b, g, ids, instances);
    assert forall|i: int, j: int| 0 <= i < j < instances.len() implies (
    #[trigger] instances[i]).id != (#[trigger] instances[j]).id by {
        reveal(are_instances);
    }
    lemma_is_plan(instances, b);
    let (_, so_far) = gathered(state, listed, g, 0, empty, changed).1->Ok_0;
    assert(next == placements_applied(middle, plan, group, 0, so_far).0);
    assert(are_placed(middle, next, plan, group, 0)) by {
        reveal(is_plan);
        assert forall|k: int| 0 <= k < plan.len() implies found(
            b,
            (#[trigger] plan[k]).workspace,
        ) is Some && windows_fit(middle, plan[k].workspace) by {
            let i = plan[k].instance as int;
            assert(instances[i].id == ids[i]);
            reveal(are_instances);
            assert(is_instance(a, instances[i].id, g));
            lemma_found_instance_may_span(state, ids[i], g);
            lemma_windows_still_fit(state, middle, ids[i]);
        }
        lemma_are_placed(middle, plan, group, 0, so_far);
    }
    lemma_plan_holds(state, middle, next, group, ids, instances, plan);
    lemma_others_stay(state, middle, next, group, ids, instances, plan);
    lemma_still_listing(listed, a, next.monitors, g, instances, plan);
    assert(next.is_valid() && same_frame(middle, next)) by {
        reveal(are_placed);
    }
    lemma_same_frame_transitive(state, middle, next);
    assert forall|x: u128| #[trigger] found(next.monitors, x) is Some implies found(
        a,
        x,
    ) is Some by {
        reveal(others_stay);
        if !is_instance(a, x, g) {
            assert(found(next.monitors, x) == found(a, x));
        }
    }
    lemma_listing_still_fits(state, next, listed);
    reveal(is_pass);
}

/// Whether no two instances of a group share a monitor and page, and the pages in use are
/// contiguous, starting at 1.
pub open spec fn is_packed(monitors: Seq<MonitorView>, group: Seq<char>) -> bool {
    &&& forall|x: u128, y: u128|
        x != y && #[trigger] is_instance(monitors, x, group) && #[trigger] is_instance(
            monitors,
            y,
            group,
        ) ==> host_of(monitors, x) != host_of(monitors, y) || value_of(
            monitors,
            x,
        ).config.spanning_page != value_of(monitors, y).config.spanning_page
    &&& forall|x: u128| #[trigger]
        is_instance(monitors, x, group) ==> value_of(monitors, x).config.spanning_page >= 1 && (
        value_of(monitors, x).config.spanning_page > 1 ==> exists|y: u128| #[trigger]
            is_instance(monitors, y, group) && value_of(monitors, y).config.spanning_page
                == value_of(monitors, x).config.spanning_page - 1)
}

/// After a group was distributed, its instances are packed.
#[verifier::rlimit(40)]
pub proof fn lemma_group_is_packed(
    state: StateView,
    next: StateView,
    listed: Seq<MemberView>,
    group: Seq<char>,
    middle: Seq<MonitorView>,
    instances: Seq<WorkspaceView>,
    plan: Seq<PagePlacement>,
)
    requires
        is_pass(state, next, listed, group, middle, instances, plan),
    ensures
        is_packed(next.monitors, group),
{
    let c = next.monitors;
    assert(0 < middle.len() <= usize::MAX && instances.len() <= usize::MAX && plan
        == page_placements(instances, middle) && is_plan(middle.len(), instances, plan)
        && plan_holds(state.monitors, c, group, instances, plan) && others_stay(
        state.monitors,
        c,
        group,
        plan,
    )) by {
        reveal(is_pass);
    }
    lemma_pages_are_compact(instances, middle);
    assert forall|x: u128| #[trigger] is_instance(c, x, group) implies exists|k: int|
        0 <= k < plan.len() && (#[trigger] plan[k]).workspace == x && host_of(c, x)
            == plan[k].monitor && value_of(c, x).config.spanning_page == plan[k].page by {
        assert(is_placed_by(plan, 0, x)) by {
            reveal(others_stay);
        }
        let k = choose|k: int| 0 <= k < plan.len() && (#[trigger] plan[k]).workspace == x;
        reveal(plan_holds);
        assert(found(c, plan[k].workspace) is Some);
    }
    assert(plan.len() == instances.len()) by {
        reveal(is_plan);
    }
    assert forall|x: u128, y: u128|
        x != y && #[trigger] is_instance(c, x, group) && #[trigger] is_instance(
            c,
            y,
            group,
        ) implies host_of(c, x) != host_of(c, y) || value_of(c, x).config.spanning_page != value_of(
        c,
        y,
    ).config.spanning_page by {
        let k = choose|k: int|
            0 <= k < plan.len() && (#[trigger] plan[k]).workspace == x && host_of(c, x)
                == plan[k].monitor && value_of(c, x).config.spanning_page == plan[k].page;
        let l = choose|k: int|
            0 <= k < plan.len() && (#[trigger] plan[k]).workspace == y && host_of(c, y)
                == plan[k].monitor && value_of(c, y).config.spanning_page == plan[k].page;
        if k < l {
            law_slots_hold_one_instance(instances, middle, k, l);
        } else {
            law_slots_hold_one_instance(instances, middle, l, k);
        }
    }
    assert forall|x: u128| #[trigger] is_instance(c, x, group) implies value_of(
        c,
        x,
    ).config.spanning_page >= 1 && (value_of(c, x).config.spanning_page > 1 ==> exists|y: u128|
        #[trigger]
        is_instance(c, y, group) && value_of(c, y).config.spanning_page == value_of(
            c,
            x,
        ).config.spanning_page - 1) by {
        let k = choose|k: int|
            0 <= k < plan.len() && (#[trigger] plan[k]).workspace == x && host_of(c, x)
                == plan[k].monitor && value_of(c, x).config.spanning_page == plan[k].page;
        assert(plan[k].page >= 1);
        if plan[k].page > 1 {
            let j = choose|j: int|
                0 <= j < plan.len() && (#[trigger] plan[j]).page == plan[k].page - 1;
            let y = plan[j].workspace;
            assert(is_instance(c, y, group) && value_of(c, y).config.spanning_page
                == plan[j].page) by {
                reveal(plan_holds);
                assert(in_group(value_of(c, plan[j].workspace), group));
            }
        }
    }
}

/// Whether the instances of a group are the same in two states.
pub open spec fn same_instances(
    a: Seq<MonitorView>,
    b: Seq<MonitorView>,
    group: Seq<char>,
) -> bool {
    forall|x: u128|
        is_instance(a, x, group) || is_instance(b, x, group) ==> #[trigger] found(b, x) == found(
            a,
            x,
        )
}

/// Distributing one group leaves the instances of another one alone.
pub proof fn lemma_other_group_stays(
    state: StateView,
    next: StateView,
    listed: Seq<MemberView>,
    group: Seq<char>,
    middle: Seq<MonitorView>,
    instances: Seq<WorkspaceView>,
    plan: Seq<PagePlacement>,
    other: Seq<char>,
)
    requires
        is_pass(state, next, listed, group, middle, instances, plan),
        group != other,
    ensures
        same_instances(state.monitors, next.monitors, other),
{
    reveal(is_pass);
    let (a, c) = (state.monitors, next.monitors);
    assert forall|x: u128|
        is_instance(a, x, other) || is_instance(c, x, other) implies #[trigger] found(c, x)
        == found(a, x) by {
        if is_instance(a, x, group) {
            assert(is_instance(c, x, other));
            lemma_listing_keeps_group(listed, a, c, x);
        } else {
            reveal(others_stay);
        }
    }
}

/// Workspaces stay in their group as long as they are listed with it.
proof fn lemma_listing_keeps_group(
    listed: Seq<MemberView>,
    a: Seq<MonitorView>,
    b: Seq<MonitorView>,
    x: u128,
)
    requires
        is_listing(listed, a),
        is_listing(listed, b),
        found(a, x) is Some,
        found(b, x) is Some,
    ensures
        value_of(a, x).config.spanning_group == value_of(b, x).config.spanning_group,
{
    let i = choose|i: int| 0 <= i < listed.len() && (#[trigger] listed[i]).id == x;
    assert(found(a, listed[i].id) is Some);
}

/// Instances that stay the same stay packed.
pub proof fn lemma_stays_packed(a: Seq<MonitorView>, b: Seq<MonitorView>, group: Seq<char>)
    requires
        is_packed(a, group),
        same_instances(a, b, group),
    ensures
        is_packed(b, group),
{
    assert forall|x: u128| #[trigger] is_instance(b, x, group) implies is_instance(a, x, group)
        && found(b, x) == found(a, x) by {
        assert(found(b, x) == found(a, x));
    }
    assert forall|x: u128| #[trigger] is_instance(a, x, group) implies is_instance(b, x, group)
        && found(b, x) == found(a, x) by {
        assert(found(b, x) == found(a, x));
    }
}

} // verus!
