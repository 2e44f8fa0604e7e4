//! Monitors and the workspaces attached to them.
use vstd::prelude::*;

use crate::focus_order::{bump, forget, moved_to_front, without};
use crate::geometry::Rect;
use crate::text::text_view;
use crate::workspace::{workspaces_view, Workspace, WorkspaceView};

verus! {

#[derive(Debug)]
pub struct Monitor {
    pub id: u128,
    pub device_name: String,
    /// Path of the display device, if known.
    pub device_path: Option<String>,
    pub bounds: Rect,
    /// Area that a workspace takes up on the monitor.
    pub workspace_area: Rect,
    /// Attached workspaces, in the order in which they are listed.
    pub workspaces: Vec<Workspace>,
    /// Identifiers of the attached workspaces, from most to least recently focused. The first
    /// one is displayed.
    pub focus_order: Vec<u128>,
}

pub struct MonitorView {
    pub id: u128,
    pub device_name: Seq<char>,
    pub device_path: Option<Seq<char>>,
    pub bounds: Rect,
    pub workspace_area: Rect,
    pub workspaces: Seq<WorkspaceView>,
    pub focus_order: Seq<u128>,
}

impl View for Monitor {
    type V = MonitorView;

    open spec fn view(&self) -> MonitorView {
        MonitorView {
            id: self.id,
            device_name: self.device_name@,
            device_path: text_view(self.device_path),
            bounds: self.bounds,
            workspace_area: self.workspace_area,
            workspaces: workspaces_view(self.workspaces@),
            focus_order: self.focus_order@,
        }
    }
}

pub open spec fn monitors_view(monitors: Seq<Monitor>) -> Seq<MonitorView> {
    monitors.map_values(|monitor: Monitor| monitor@)
}

/// An exec position as a mathematical one.
pub open spec fn position_view(position: Option<usize>) -> Option<int> {
    match position {
        Some(position) => Some(position as int),
        None => None,
    }
}

/// First position from `from` on that holds the workspace with the given identifier.
pub open spec fn workspace_position(workspaces: Seq<WorkspaceView>, id: u128, from: int) -> Option<
    int,
>
    decreases workspaces.len() - from,
{
    if from < 0 || from >= workspaces.len() {
        None
    } else if workspaces[from].id == id {
        Some(from)
    } else {
        workspace_position(workspaces, id, from + 1)
    }
}

impl MonitorView {
    pub open spec fn position(self, id: u128) -> Option<int> {
        workspace_position(self.workspaces, id, 0)
    }

    /// Position of the displayed workspace: the most recently focused one.
    pub open spec fn displayed(self) -> Option<int> {
        if self.focus_order.len() == 0 {
            None
        } else {
            self.position(self.focus_order[0])
        }
    }

    /// The monitor with a workspace attached behind all others, in listing and focus order.
    pub open spec fn attach(self, workspace: WorkspaceView) -> MonitorView {
        MonitorView {
            workspaces: self.workspaces.push(
                WorkspaceView { monitor: Some(self.id), ..workspace },
            ),
            focus_order: self.focus_order.push(workspace.id),
            ..self
        }
    }

    /// The monitor without the workspace at the given position.
    pub open spec fn detach(self, at: int) -> MonitorView {
        MonitorView {
            workspaces: self.workspaces.remove(at),
            focus_order: without(self.focus_order, self.workspaces[at].id),
            ..self
        }
    }

    /// The monitor with another workspace value at the given position.
    pub open spec fn replace(self, at: int, workspace: WorkspaceView) -> MonitorView {
        MonitorView { workspaces: self.workspaces.update(at, workspace), ..self }
    }

    /// The monitor with the given workspace displayed.
    pub open spec fn display(self, id: u128) -> MonitorView {
        MonitorView { focus_order: moved_to_front(self.focus_order, id), ..self }
    }
}

/// A found position is a valid one, and holds the workspace looked for.
pub proof fn lemma_workspace_position(workspaces: Seq<WorkspaceView>, id: u128, from: int)
    requires
        0 <= from,
    ensures
        workspace_position(workspaces, id, from) matches Some(at) ==> from <= at
            < workspaces.len() && workspaces[at].id == id && forall|j: int|
            from <= j < at ==> workspaces[j].id != id,
        workspace_position(workspaces, id, from) is None ==> forall|j: int|
            from <= j < workspaces.len() ==> workspaces[j].id != id,
    decreases workspaces.len() - from,
{
    if from < workspaces.len() && workspaces[from].id != id {
        lemma_workspace_position(workspaces, id, from + 1);
    }
}

impl Monitor {
    /// Finds an attached workspace.
    pub fn find_workspace(&self, id: u128) -> (position: Option<usize>)
        ensures
            position_view(position) == self@.position(id),
            position matches Some(at) ==> at < self.workspaces@.len() && self.workspaces@[at as int].id
                == id,
    {
        let mut i: usize = 0;
        while i < self.workspaces.len()
            invariant
                i <= self.workspaces@.len(),
                self@.position(id) == workspace_position(self@.workspaces, id, i as int),
            decreases self.workspaces@.len() - i,
        {
            assert(self@.workspaces[i as int] == self.workspaces@[i as int]@);
            if self.workspaces[i].id == id {
                return Some(i);
            }
            i = i + 1;
        }
        None
    }

    /// Finds the displayed workspace.
    pub fn displayed_workspace(&self) -> (position: Option<usize>)
        ensures
            position_view(position) == self@.displayed(),
            position matches Some(at) ==> at < self.workspaces@.len(),
    {
        if self.focus_order.len() == 0 {
            None
        } else {
            self.find_workspace(self.focus_order[0])
        }
    }

    /// Attaches a workspace behind all others.
    pub fn attach(&mut self, workspace: Workspace)
        ensures
            final(self)@ == old(self)@.attach(workspace@),
    {
        let mut workspace = workspace;
        workspace.monitor = Some(self.id);
        self.focus_order.push(workspace.id);
        self.workspaces.push(workspace);
        assert(self@.workspaces =~= old(self)@.attach(workspace@).workspaces);
    }

    /// Detaches the workspace at the given position.
    pub fn detach(&mut self, at: usize) -> (workspace: Workspace)
        requires
            at < old(self).workspaces@.len(),
        ensures
            final(self)@ == old(self)@.detach(at as int),
            workspace@ == (WorkspaceView {
                monitor: None,
                ..old(self)@.workspaces[at as int]
            }),
    {
        let mut workspace = self.workspaces.remove(at);
        forget(&mut self.focus_order, workspace.id);
        workspace.monitor = None;
        assert(self@.workspaces =~= old(self)@.workspaces.remove(at as int));
        workspace
    }

    /// Displays an attached workspace, by making it the most recently focused one.
    pub fn display(&mut self, id: u128)
        ensures
            final(self)@ == old(self)@.display(id),
    {
        bump(&mut self.focus_order, id);
    }
}

} // verus!
