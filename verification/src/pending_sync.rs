//! Changes that have yet to be applied to the platform.
use std::collections::HashSet;
use vstd::prelude::*;

verus! {

broadcast use vstd::std_specs::hash::group_hash_axioms;

/// Changes that have yet to be applied to the platform, in a single pass.
#[derive(Debug)]
pub struct PendingSync {
    pub needs_focus_update: bool,
    pub needs_focused_effect_update: bool,
    pub needs_cursor_jump: bool,
    /// Identifiers of the containers to redraw.
    pub containers_to_redraw: HashSet<u128>,
    /// Identifiers of the workspaces whose windows to reorder.
    pub workspaces_to_reorder: HashSet<u128>,
}

pub struct PendingSyncView {
    pub needs_focus_update: bool,
    pub needs_focused_effect_update: bool,
    pub needs_cursor_jump: bool,
    pub containers_to_redraw: Set<u128>,
    pub workspaces_to_reorder: Set<u128>,
}

impl View for PendingSync {
    type V = PendingSyncView;

    open spec fn view(&self) -> PendingSyncView {
        PendingSyncView {
            needs_focus_update: self.needs_focus_update,
            needs_focused_effect_update: self.needs_focused_effect_update,
            needs_cursor_jump: self.needs_cursor_jump,
            containers_to_redraw: self.containers_to_redraw@,
            workspaces_to_reorder: self.workspaces_to_reorder@,
        }
    }
}

impl PendingSyncView {
    pub open spec fn empty() -> PendingSyncView {
        PendingSyncView {
            needs_focus_update: false,
            needs_focused_effect_update: false,
            needs_cursor_jump: false,
            containers_to_redraw: Set::empty(),
            workspaces_to_reorder: Set::empty(),
        }
    }

    pub open spec fn focus_change(self) -> PendingSyncView {
        PendingSyncView { needs_focus_update: true, ..self }
    }

    pub open spec fn focused_effect_update(self) -> PendingSyncView {
        PendingSyncView { needs_focused_effect_update: true, ..self }
    }

    pub open spec fn cursor_jump(self) -> PendingSyncView {
        PendingSyncView { needs_cursor_jump: true, ..self }
    }

    pub open spec fn redraw(self, id: u128) -> PendingSyncView {
        PendingSyncView { containers_to_redraw: self.containers_to_redraw.insert(id), ..self }
    }

    pub open spec fn no_redraw(self, id: u128) -> PendingSyncView {
        PendingSyncView { containers_to_redraw: self.containers_to_redraw.remove(id), ..self }
    }

    pub open spec fn reorder(self, id: u128) -> PendingSyncView {
        PendingSyncView { workspaces_to_reorder: self.workspaces_to_reorder.insert(id), ..self }
    }
}

impl PendingSync {
    /// Creates a sync with nothing to do.
    pub fn new() -> (sync: PendingSync)
        ensures
            sync@ == PendingSyncView::empty(),
    {
        PendingSync {
            needs_focus_update: false,
            needs_focused_effect_update: false,
            needs_cursor_jump: false,
            containers_to_redraw: HashSet::new(),
            workspaces_to_reorder: HashSet::new(),
        }
    }

    pub fn queue_focus_change(&mut self)
        ensures
            final(self)@ == old(self)@.focus_change(),
    {
        self.needs_focus_update = true;
    }

    pub fn queue_focused_effect_update(&mut self)
        ensures
            final(self)@ == old(self)@.focused_effect_update(),
    {
        self.needs_focused_effect_update = true;
    }

    pub fn queue_cursor_jump(&mut self)
        ensures
            final(self)@ == old(self)@.cursor_jump(),
    {
        self.needs_cursor_jump = true;
    }

    pub fn queue_container_to_redraw(&mut self, id: u128)
        ensures
            final(self)@ == old(self)@.redraw(id),
    {
        self.containers_to_redraw.insert(id);
    }

    pub fn dequeue_container_from_redraw(&mut self, id: u128)
        ensures
            final(self)@ == old(self)@.no_redraw(id),
    {
        self.containers_to_redraw.remove(&id);
    }

    pub fn queue_workspace_to_reorder(&mut self, id: u128)
        ensures
            final(self)@ == old(self)@.reorder(id),
    {
        self.workspaces_to_reorder.insert(id);
    }
}

} // verus!
