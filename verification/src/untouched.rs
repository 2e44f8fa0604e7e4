//! When distributing instances anew changes nothing.
use vstd::prelude::*;

use crate::monitor::{lemma_workspace_position, MonitorView};
use crate::monitor_identity::MonitorIdentityView;
use crate::wm_state::{lemma_monitor_position, StateView};
use crate::workspace::WorkspaceView;
use crate::workspace_config::WorkspaceConfigView;

verus! {

/// A workspace without its home.
pub open spec fn without_home(workspace: WorkspaceView) -> WorkspaceView {
    WorkspaceView { home: None, ..workspace }
}

/// Whether some workspace of a list is the given one, but for the home.
#[verifier::opaque]
pub open spec fn lists_workspace(workspaces: Seq<WorkspaceView>, workspace: WorkspaceView) -> bool {
    exists|i: int|
        0 <= i < workspaces.len() && without_home(#[trigger] workspaces[i]) == without_home(
            workspace,
        )
}

/// Whether two lists hold the same workspaces, but for their order and homes.
#[verifier::opaque]
pub open spec fn same_workspaces(a: Seq<WorkspaceView>, b: Seq<WorkspaceView>) -> bool {
    &&& a.len() == b.len()
    &&& forall|i: int| 0 <= i < a.len() ==> lists_workspace(b, #[trigger] a[i])
    &&& forall|i: int| 0 <= i < b.len() ==> lists_workspace(a, #[trigger] b[i])
}

/// Whether a monitor is the same, but for the order and homes of its workspaces.
pub open spec fn same_monitor(a: MonitorView, b: MonitorView) -> bool {
    a == (MonitorView { workspaces: a.workspaces, ..b }) && same_workspaces(
        a.workspaces,
        b.workspaces,
    )
}

/// Whether a state is the same, but for the order and homes of the workspaces on each monitor.
#[verifier::opaque]
pub open spec fn same_but_homes(a: StateView, b: StateView) -> bool {
    &&& a == (StateView { monitors: a.monitors, ..b })
    &&& a.monitors.len() == b.monitors.len()
    &&& forall|m: int| #![trigger a.monitors[m]] #![trigger b.monitors[m]]
        0 <= m < a.monitors.len() ==> same_monitor(a.monitors[m], b.monitors[m])
}

proof fn lemma_lists(workspaces: Seq<WorkspaceView>, i: int, workspace: WorkspaceView)
    requires
        0 <= i < workspaces.len(),
        without_home(workspaces[i]) == without_home(workspace),
    ensures
        lists_workspace(workspaces, workspace),
{
    reveal(lists_workspace);
}

pub proof fn lemma_listed(workspaces: Seq<WorkspaceView>, workspace: WorkspaceView) -> (i: int)
    requires
        lists_workspace(workspaces, workspace),
    ensures
        0 <= i < workspaces.len(),
        without_home(workspaces[i]) == without_home(workspace),
{
    reveal(lists_workspace);
    choose|i: int|
        0 <= i < workspaces.len() && without_home(#[trigger] workspaces[i]) == without_home(
            workspace,
        )
}

pub proof fn lemma_same_workspaces_itself(workspaces: Seq<WorkspaceView>)
    ensures
        same_workspaces(workspaces, workspaces),
{
    reveal(same_workspaces);
    assert forall|i: int| 0 <= i < workspaces.len() implies lists_workspace(
        workspaces,
        #[trigger] workspaces[i],
    ) by {
        lemma_lists(workspaces, i, workspaces[i]);
    }
}

pub proof fn lemma_same_but_homes_itself(state: StateView)
    ensures
        same_but_homes(state, state),
{
    reveal(same_but_homes);
    assert forall|m: int| #![trigger state.monitors[m]]
        0 <= m < state.monitors.len() implies same_monitor(
        state.monitors[m],
        state.monitors[m],
    ) by {
        lemma_same_workspaces_itself(state.monitors[m].workspaces);
    }
}

proof fn lemma_lists_transitive(
    a: Seq<WorkspaceView>,
    b: Seq<WorkspaceView>,
    workspace: WorkspaceView,
)
    requires
        lists_workspace(a, workspace),
        forall|i: int| 0 <= i < a.len() ==> lists_workspace(b, #[trigger] a[i]),
    ensures
        lists_workspace(b, workspace),
{
    let i = lemma_listed(a, workspace);
    assert(lists_workspace(b, a[i]));
    let j = lemma_listed(b, a[i]);
    lemma_lists(b, j, workspace);
}

proof fn lemma_same_workspaces_transitive(
    a: Seq<WorkspaceView>,
    b: Seq<WorkspaceView>,
    c: Seq<WorkspaceView>,
)
    requires
        same_workspaces(a, b),
        same_workspaces(b, c),
    ensures
        same_workspaces(a, c),
{
    reveal(same_workspaces);
    assert forall|i: int| 0 <= i < a.len() implies lists_workspace(c, #[trigger] a[i]) by {
        lemma_lists_transitive(b, c, a[i]);
    }
    assert forall|i: int| 0 <= i < c.len() implies lists_workspace(a, #[trigger] c[i]) by {
        lemma_lists_transitive(b, a, c[i]);
    }
}

pub proof fn lemma_same_but_homes_transitive(a: StateView, b: StateView, c: StateView)
    requires
        same_but_homes(a, b),
        same_but_homes(b, c),
    ensures
        same_but_homes(a, c),
{
    reveal(same_but_homes);
    assert forall|m: int| #![trigger a.monitors[m]] #![trigger c.monitors[m]]
        0 <= m < a.monitors.len() implies same_monitor(a.monitors[m], c.monitors[m]) by {
        assert(same_monitor(a.monitors[m], b.monitors[m]));
        assert(same_monitor(b.monitors[m], c.monitors[m]));
        lemma_same_workspaces_transitive(
            a.monitors[m].workspaces,
            b.monitors[m].workspaces,
            c.monitors[m].workspaces,
        );
    }
}

/// Giving a workspace a home changes nothing else.
pub proof fn lemma_homing_is_same(
    state: StateView,
    place: (int, int),
    home: Option<MonitorIdentityView>,
)
    requires
        0 <= place.0 < state.monitors.len(),
        0 <= place.1 < state.monitors[place.0].workspaces.len(),
    ensures
        same_but_homes(
            state,
            state.set_workspace(place, WorkspaceView { home, ..state.workspace(place) }),
        ),
{
    reveal(same_but_homes);
    let next = state.set_workspace(place, WorkspaceView { home, ..state.workspace(place) });
    lemma_same_but_homes_itself(state);
    let a = state.monitors[place.0].workspaces;
    let b = next.monitors[place.0].workspaces;
    assert(same_workspaces(a, b)) by {
        reveal(same_workspaces);
        assert forall|i: int| 0 <= i < a.len() implies lists_workspace(b, #[trigger] a[i]) by {
            lemma_lists(b, i, a[i]);
        }
        assert forall|i: int| 0 <= i < b.len() implies lists_workspace(a, #[trigger] b[i]) by {
            lemma_lists(a, i, b[i]);
        }
    }
    assert forall|m: int| #![trigger state.monitors[m]] #![trigger next.monitors[m]]
        0 <= m < state.monitors.len() implies same_monitor(
        state.monitors[m],
        next.monitors[m],
    ) by {
        if m != place.0 {
            lemma_same_workspaces_itself(state.monitors[m].workspaces);
        }
    }
}

/// Putting the workspaces of a monitor in order changes nothing else.
pub proof fn lemma_sorting_is_same(
    state: StateView,
    monitor: int,
    configs: Seq<WorkspaceConfigView>,
)
    requires
        0 <= monitor < state.monitors.len(),
    ensures
        same_but_homes(state, state.sort(monitor, configs)),
{
    reveal(same_but_homes);
    let next = state.sort(monitor, configs);
    let a = state.monitors[monitor].workspaces;
    let b = next.monitors[monitor].workspaces;
    crate::invariants::lemma_sorted_workspaces(configs, a);
    assert(same_workspaces(a, b)) by {
        reveal(same_workspaces);
        assert forall|i: int| 0 <= i < a.len() implies lists_workspace(b, #[trigger] a[i]) by {
            assert(b.contains(a[i]));
            let j = choose|j: int| 0 <= j < b.len() && b[j] == a[i];
            lemma_lists(b, j, a[i]);
        }
        assert forall|i: int| 0 <= i < b.len() implies lists_workspace(a, #[trigger] b[i]) by {
            assert(a.contains(b[i]));
            let j = choose|j: int| 0 <= j < a.len() && a[j] == b[i];
            lemma_lists(a, j, b[i]);
        }
    }
    assert forall|m: int| #![trigger state.monitors[m]] #![trigger next.monitors[m]]
        0 <= m < state.monitors.len() implies same_monitor(
        state.monitors[m],
        next.monitors[m],
    ) by {
        if m != monitor {
            lemma_same_workspaces_itself(state.monitors[m].workspaces);
        }
    }
}

/// What has focus depends on neither the order nor the homes of workspaces.
pub proof fn lemma_same_focus(a: StateView, b: StateView)
    requires
        same_but_homes(a, b),
    ensures
        a.focused_container() == b.focused_container(),
        a.focused_monitor() == b.focused_monitor(),
{
    reveal(same_but_homes);
    reveal(same_workspaces);
    crate::invariants::lemma_same_monitor_position(a.monitors, b.monitors, 0);
    if let Some(m) = a.focused_monitor() {
        lemma_monitor_position(a.monitors, a.focus_order[0], 0);
        assert(same_monitor(a.monitors[m], b.monitors[m]));
        let (x, y) = (a.monitors[m], b.monitors[m]);
        if x.focus_order.len() > 0 {
            let id = x.focus_order[0];
            lemma_workspace_position(x.workspaces, id, 0);
            lemma_workspace_position(y.workspaces, id, 0);
            if let Some(at) = x.displayed() {
                assert(lists_workspace(y.workspaces, x.workspaces[at]));
                let j = lemma_listed(y.workspaces, x.workspaces[at]);
                assert(without_home(y.workspaces[j]).id == id);
                assert(y.workspaces[j].id == id);
            }
            if let Some(at) = y.displayed() {
                assert(lists_workspace(x.workspaces, y.workspaces[at]));
                let j = lemma_listed(x.workspaces, y.workspaces[at]);
                assert(without_home(x.workspaces[j]).id == id);
                assert(x.workspaces[j].id == id);
            }
        }
        assert forall|w: u128| #[trigger] a.container_to_focus(w) == b.container_to_focus(w) by {}
    }
}

} // verus!
