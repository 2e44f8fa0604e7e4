//! Workspaces.
use vstd::prelude::*;

use crate::geometry::TilingDirection;
use crate::monitor_identity::{identity_view, MonitorIdentity, MonitorIdentityView};
use crate::orientation::Orientation;
use crate::workspace_config::{WorkspaceConfig, WorkspaceConfigView};

verus! {

/// A workspace. Its windows and split containers are kept by the state, which refers to the
/// workspace by its identifier.
#[derive(Debug)]
pub struct Workspace {
    pub id: u128,
    /// Identifier of the monitor that the workspace is attached to.
    pub monitor: Option<u128>,
    pub config: WorkspaceConfig,
    /// Monitor that the workspace belongs to. Set for instances of spanning workspaces that
    /// are the screen of a monitor.
    pub home: Option<MonitorIdentity>,
    pub tiling_direction: TilingDirection,
    /// Orientation that the layout was made for.
    pub layout_orientation: Orientation,
    /// Whether the layout is currently transposed to fit the other orientation.
    pub is_transposed: bool,
}

pub struct WorkspaceView {
    pub id: u128,
    pub monitor: Option<u128>,
    pub config: WorkspaceConfigView,
    pub home: Option<MonitorIdentityView>,
    pub tiling_direction: TilingDirection,
    pub layout_orientation: Orientation,
    pub is_transposed: bool,
}

impl View for Workspace {
    type V = WorkspaceView;

    open spec fn view(&self) -> WorkspaceView {
        WorkspaceView {
            id: self.id,
            monitor: self.monitor,
            config: self.config@,
            home: identity_view(self.home),
            tiling_direction: self.tiling_direction,
            layout_orientation: self.layout_orientation,
            is_transposed: self.is_transposed,
        }
    }
}

impl WorkspaceView {
    /// A detached workspace with a layout made for the given direction.
    pub open spec fn created(
        id: u128,
        config: WorkspaceConfigView,
        tiling_direction: TilingDirection,
    ) -> WorkspaceView {
        WorkspaceView {
            id,
            monitor: None,
            config,
            home: None,
            tiling_direction,
            layout_orientation: Orientation::spec_for_direction(tiling_direction),
            is_transposed: false,
        }
    }
}

impl Workspace {
    /// Creates a workspace that isn't attached to a monitor yet.
    pub fn new(id: u128, config: WorkspaceConfig, tiling_direction: TilingDirection) -> (workspace:
        Workspace)
        ensures
            workspace@ == WorkspaceView::created(id, config@, tiling_direction),
    {
        Workspace {
            id,
            monitor: None,
            config,
            home: None,
            tiling_direction,
            layout_orientation: Orientation::for_direction(tiling_direction),
            is_transposed: false,
        }
    }
}

pub open spec fn workspaces_view(workspaces: Seq<Workspace>) -> Seq<WorkspaceView> {
    workspaces.map_values(|workspace: Workspace| workspace@)
}

} // verus!
