//! Errors of window manager operations.
use vstd::prelude::*;

use crate::error::{frame, framed};

verus! {

/// Reason for an operation on the window manager state to fail.
#[derive(Debug, PartialEq, Eq)]
pub enum WmError {
    NoFocusedContainer,
    NoFocusedWorkspace,
    NoFocusedMonitor,
    NoDisplayedWorkspace,
    /// A workspace isn't attached to a monitor.
    Detached,
    NoTargetMonitor,
    NoWorkspaceConfig,
    /// There is no inactive workspace with the name.
    WorkspaceUnavailable(String),
    /// There is no spanning workspace with the name.
    NoSpanningConfig(String),
    NoMonitorToMoveTo,
    NoMonitorAtCursor,
    NoNearestMonitor,
    NoDropWorkspace,
    NoDropParent,
}

pub enum WmErrorView {
    NoFocusedContainer,
    NoFocusedWorkspace,
    NoFocusedMonitor,
    NoDisplayedWorkspace,
    Detached,
    NoTargetMonitor,
    NoWorkspaceConfig,
    WorkspaceUnavailable(Seq<char>),
    NoSpanningConfig(Seq<char>),
    NoMonitorToMoveTo,
    NoMonitorAtCursor,
    NoNearestMonitor,
    NoDropWorkspace,
    NoDropParent,
}

impl View for WmError {
    type V = WmErrorView;

    open spec fn view(&self) -> WmErrorView {
        match self {
            WmError::NoFocusedContainer => WmErrorView::NoFocusedContainer,
            WmError::NoFocusedWorkspace => WmErrorView::NoFocusedWorkspace,
            WmError::NoFocusedMonitor => WmErrorView::NoFocusedMonitor,
            WmError::NoDisplayedWorkspace => WmErrorView::NoDisplayedWorkspace,
            WmError::Detached => WmErrorView::Detached,
            WmError::NoTargetMonitor => WmErrorView::NoTargetMonitor,
            WmError::NoWorkspaceConfig => WmErrorView::NoWorkspaceConfig,
            WmError::WorkspaceUnavailable(name) => WmErrorView::WorkspaceUnavailable(name@),
            WmError::NoSpanningConfig(name) => WmErrorView::NoSpanningConfig(name@),
            WmError::NoMonitorToMoveTo => WmErrorView::NoMonitorToMoveTo,
            WmError::NoMonitorAtCursor => WmErrorView::NoMonitorAtCursor,
            WmError::NoNearestMonitor => WmErrorView::NoNearestMonitor,
            WmError::NoDropWorkspace => WmErrorView::NoDropWorkspace,
            WmError::NoDropParent => WmErrorView::NoDropParent,
        }
    }
}

impl WmErrorView {
    /// What the error reads as.
    pub open spec fn reads(self) -> Seq<char> {
        match self {
            WmErrorView::NoFocusedContainer => "No focused container."@,
            WmErrorView::NoFocusedWorkspace => "No workspace is currently focused."@,
            WmErrorView::NoFocusedMonitor => "No monitor is currently focused."@,
            WmErrorView::NoDisplayedWorkspace => "No workspace is currently displayed."@,
            WmErrorView::Detached => "Workspace has no monitor."@,
            WmErrorView::NoTargetMonitor => "Failed to get a target monitor for the workspace."@,
            WmErrorView::NoWorkspaceConfig => "No workspace config available to activate workspace."@,
            WmErrorView::WorkspaceUnavailable(name) => framed(
                "Workspace with name '"@,
                name,
                "' doesn't exist or is already active."@,
            ),
            WmErrorView::NoSpanningConfig(name) => framed(
                "No spanning workspace config with name '"@,
                name,
                "'."@,
            ),
            WmErrorView::NoMonitorToMoveTo => "No target monitor to move workspaces."@,
            WmErrorView::NoMonitorAtCursor => "No monitor under cursor."@,
            WmErrorView::NoNearestMonitor => "Failed to get workspace of nearest monitor."@,
            WmErrorView::NoDropWorkspace => "Couldn't find workspace for window drop."@,
            WmErrorView::NoDropParent => "Nearest container has no direction container as parent."@,
        }
    }
}

impl WmError {
    /// Message for the user.
    pub fn message(&self) -> (message: String)
        ensures
            message@ == self@.reads(),
    {
        match self {
            WmError::NoFocusedContainer => "No focused container.".to_owned(),
            WmError::NoFocusedWorkspace => "No workspace is currently focused.".to_owned(),
            WmError::NoFocusedMonitor => "No monitor is currently focused.".to_owned(),
            WmError::NoDisplayedWorkspace => "No workspace is currently displayed.".to_owned(),
            WmError::Detached => "Workspace has no monitor.".to_owned(),
            WmError::NoTargetMonitor => "Failed to get a target monitor for the workspace.".to_owned(),
            WmError::NoWorkspaceConfig => "No workspace config available to activate workspace.".to_owned(),
            WmError::WorkspaceUnavailable(name) => frame(
                "Workspace with name '",
                name.as_str(),
                "' doesn't exist or is already active.",
            ),
            WmError::NoSpanningConfig(name) => frame(
                "No spanning workspace config with name '",
                name.as_str(),
                "'.",
            ),
            WmError::NoMonitorToMoveTo => "No target monitor to move workspaces.".to_owned(),
            WmError::NoMonitorAtCursor => "No monitor under cursor.".to_owned(),
            WmError::NoNearestMonitor => "Failed to get workspace of nearest monitor.".to_owned(),
            WmError::NoDropWorkspace => "Couldn't find workspace for window drop.".to_owned(),
            WmError::NoDropParent => "Nearest container has no direction container as parent.".to_owned(),
        }
    }
}

/// Result of an operation, with its error by value.
pub open spec fn outcome<T>(result: Result<T, WmError>) -> Result<T, WmErrorView> {
    match result {
        Ok(value) => Ok(value),
        Err(error) => Err(error@),
    }
}

} // verus!
