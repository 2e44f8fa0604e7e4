//! Configs of workspaces.
use vstd::prelude::*;

use crate::page_key::{key_view, PageKey, PageKeyView};
use crate::text::{clone_text, text_view};

verus! {

/// Monitors that a spanning workspace is shown on.
#[derive(Clone, Copy, Debug, PartialEq, Eq, Structural)]
pub enum MonitorSelector {
    All,
}

#[derive(Debug, PartialEq, Eq)]
pub struct WorkspaceConfig {
    pub name: String,
    pub display_name: Option<String>,
    pub bind_to_monitor: Option<u32>,
    pub keep_alive: bool,
    /// Set for spanning workspaces, which switch on all of these monitors at once.
    pub monitors: Option<MonitorSelector>,
    /// Name of the spanning workspace that this is an instance of.
    pub spanning_group: Option<String>,
    /// Page of the spanning workspace that this is an instance of.
    pub spanning_page: usize,
}

pub struct WorkspaceConfigView {
    pub name: Seq<char>,
    pub display_name: Option<Seq<char>>,
    pub bind_to_monitor: Option<u32>,
    pub keep_alive: bool,
    pub monitors: Option<MonitorSelector>,
    pub spanning_group: Option<Seq<char>>,
    pub spanning_page: usize,
}

impl View for WorkspaceConfig {
    type V = WorkspaceConfigView;

    open spec fn view(&self) -> WorkspaceConfigView {
        WorkspaceConfigView {
            name: self.name@,
            display_name: text_view(self.display_name),
            bind_to_monitor: self.bind_to_monitor,
            keep_alive: self.keep_alive,
            monitors: self.monitors,
            spanning_group: text_view(self.spanning_group),
            spanning_page: self.spanning_page,
        }
    }
}

impl Clone for WorkspaceConfig {
    fn clone(&self) -> (copy: Self)
        ensures
            copy@ == self@,
    {
        WorkspaceConfig {
            name: self.name.clone(),
            display_name: clone_text(&self.display_name),
            bind_to_monitor: self.bind_to_monitor,
            keep_alive: self.keep_alive,
            monitors: self.monitors,
            spanning_group: clone_text(&self.spanning_group),
            spanning_page: self.spanning_page,
        }
    }
}

impl WorkspaceConfigView {
    /// Page that the workspace is an instance of, if it belongs to a spanning group.
    pub open spec fn page_key(self) -> Option<PageKeyView> {
        match self.spanning_group {
            Some(group) => Some(
                PageKeyView {
                    group,
                    page: if self.spanning_page <= 1 {
                        1
                    } else {
                        self.spanning_page
                    },
                },
            ),
            None => None,
        }
    }

    /// Name by which the workspace is known to the user: the label of its page for instances
    /// of spanning workspaces, its own name otherwise.
    pub open spec fn logical_name(self) -> Seq<char> {
        match self.page_key() {
            Some(key) => key.label(),
            None => self.name,
        }
    }
}

impl WorkspaceConfig {
    /// Page that the workspace is an instance of, if it belongs to a spanning group.
    pub fn page_key(&self) -> (key: Option<PageKey>)
        ensures
            key_view(key) == self@.page_key(),
    {
        match &self.spanning_group {
            Some(group) => {
                let page: usize = if self.spanning_page <= 1 {
                    1
                } else {
                    self.spanning_page
                };
                Some(PageKey { group: group.clone(), page })
            },
            None => None,
        }
    }

    /// Name by which the workspace is known to the user.
    pub fn logical_name(&self) -> (name: String)
        ensures
            name@ == self@.logical_name(),
    {
        match self.page_key() {
            Some(key) => key.to_string(),
            None => self.name.clone(),
        }
    }
}

pub open spec fn configs_view(configs: Seq<WorkspaceConfig>) -> Seq<WorkspaceConfigView> {
    configs.map_values(|config: WorkspaceConfig| config@)
}

} // verus!
