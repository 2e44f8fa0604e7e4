//! Events that subscribers are notified of.
use vstd::prelude::*;

use crate::container::ContainerRef;

verus! {

/// Event that subscribers (e.g. status bars) are notified of.
#[derive(Debug, PartialEq, Eq)]
pub enum WmEvent {
    WorkspaceActivated { activated_workspace: u128 },
    WorkspaceUpdated { updated_workspace: u128 },
    WorkspaceDeactivated { deactivated_id: u128, deactivated_name: String },
    MonitorRemoved { removed_id: u128, removed_device_name: String },
    FocusChanged { focused_container: ContainerRef },
}

pub enum WmEventView {
    WorkspaceActivated { activated_workspace: u128 },
    WorkspaceUpdated { updated_workspace: u128 },
    WorkspaceDeactivated { deactivated_id: u128, deactivated_name: Seq<char> },
    MonitorRemoved { removed_id: u128, removed_device_name: Seq<char> },
    FocusChanged { focused_container: ContainerRef },
}

impl View for WmEvent {
    type V = WmEventView;

    open spec fn view(&self) -> WmEventView {
        match self {
            WmEvent::WorkspaceActivated { activated_workspace } =>
                WmEventView::WorkspaceActivated { activated_workspace: *activated_workspace },
            WmEvent::WorkspaceUpdated { updated_workspace } => WmEventView::WorkspaceUpdated {
                updated_workspace: *updated_workspace,
            },
            WmEvent::WorkspaceDeactivated { deactivated_id, deactivated_name } =>
                WmEventView::WorkspaceDeactivated {
                deactivated_id: *deactivated_id,
                deactivated_name: deactivated_name@,
            },
            WmEvent::MonitorRemoved { removed_id, removed_device_name } =>
                WmEventView::MonitorRemoved {
                removed_id: *removed_id,
                removed_device_name: removed_device_name@,
            },
            WmEvent::FocusChanged { focused_container } => WmEventView::FocusChanged {
                focused_container: *focused_container,
            },
        }
    }
}

pub open spec fn events_view(events: Seq<WmEvent>) -> Seq<WmEventView> {
    events.map_values(|event: WmEvent| event@)
}

} // verus!
