//! State of the window manager, and the basic operations on it.
use vstd::prelude::*;

use crate::container::{
    find_node, has_nodes, holds_nodes, node_position, nodes_view, ContainerRef, Node, NodeContent,
    NodeView,
};
use crate::focus_order::{bump, moved_to_front};
use crate::geometry::Point;
use crate::monitor::{monitors_view, position_view, Monitor, MonitorView};
use crate::monitor_identity::{identity_view, MonitorIdentity};
use crate::page_key::{key_view, parsed_label, PageKey, PageKeyView};
use crate::pending_sync::{PendingSync, PendingSyncView};
use crate::text::{same_text, text_view};
use crate::user_config::{borrowed_workspaces, sorted_workspaces, spanning_config, UserConfig};
use crate::wm_error::{outcome, WmError, WmErrorView};
use crate::wm_event::{events_view, WmEvent, WmEventView};
use crate::workspace::{Workspace, WorkspaceView};
use crate::workspace_config::{WorkspaceConfig, WorkspaceConfigView};

verus! {

/// State of the window manager.
#[derive(Debug)]
pub struct WmState {
    /// Connected monitors, sorted by position.
    pub monitors: Vec<Monitor>,
    /// Identifiers of the monitors, from most to least recently focused.
    pub focus_order: Vec<u128>,
    /// Windows and split containers of all workspaces. Children of the same container are in
    /// layout order.
    pub nodes: Vec<Node>,
    /// Identifiers of the windows, from most to least recently focused.
    pub window_focus_order: Vec<u128>,
    /// Name of the workspace that had focus before the current one.
    pub recent_workspace_name: Option<String>,
    /// Whether native focus is on the focused container.
    pub is_focus_synced: bool,
    pub is_paused: bool,
    /// Native windows that are never managed.
    pub ignored_windows: Vec<isize>,
    pub pending_sync: PendingSync,
    /// Events that subscribers have yet to be notified of.
    pub events: Vec<WmEvent>,
    /// Identifier for the next workspace.
    pub next_id: u128,
}

pub struct StateView {
    pub monitors: Seq<MonitorView>,
    pub focus_order: Seq<u128>,
    pub nodes: Seq<NodeView>,
    pub window_focus_order: Seq<u128>,
    pub recent_workspace_name: Option<Seq<char>>,
    pub is_focus_synced: bool,
    pub is_paused: bool,
    pub ignored_windows: Seq<isize>,
    pub pending_sync: PendingSyncView,
    pub events: Seq<WmEventView>,
    pub next_id: u128,
}

impl View for WmState {
    type V = StateView;

    open spec fn view(&self) -> StateView {
        StateView {
            monitors: monitors_view(self.monitors@),
            focus_order: self.focus_order@,
            nodes: nodes_view(self.nodes@),
            window_focus_order: self.window_focus_order@,
            recent_workspace_name: text_view(self.recent_workspace_name),
            is_focus_synced: self.is_focus_synced,
            is_paused: self.is_paused,
            ignored_windows: self.ignored_windows@,
            pending_sync: self.pending_sync@,
            events: events_view(self.events@),
            next_id: self.next_id,
        }
    }
}

/// Position of a workspace: its monitor, and its place among the monitor's workspaces.
pub open spec fn place_view(place: Option<(usize, usize)>) -> Option<(int, int)> {
    match place {
        Some((monitor, at)) => Some((monitor as int, at as int)),
        None => None,
    }
}

/// First monitor from `from` on with the given identifier.
pub open spec fn monitor_position(monitors: Seq<MonitorView>, id: u128, from: int) -> Option<int>
    decreases monitors.len() - from,
{
    if from < 0 || from >= monitors.len() {
        None
    } else if monitors[from].id == id {
        Some(from)
    } else {
        monitor_position(monitors, id, from + 1)
    }
}

/// First monitor from `from` on whose bounds contain the given point.
pub open spec fn monitor_at(monitors: Seq<MonitorView>, point: Point, from: int) -> Option<int>
    decreases monitors.len() - from,
{
    if from < 0 || from >= monitors.len() {
        None
    } else if monitors[from].bounds.spec_contains(point) {
        Some(from)
    } else {
        monitor_at(monitors, point, from + 1)
    }
}

/// Position of a workspace on the monitors from `from` on.
pub open spec fn located(monitors: Seq<MonitorView>, id: u128, from: int) -> Option<(int, int)>
    decreases monitors.len() - from,
{
    if from < 0 || from >= monitors.len() {
        None
    } else {
        match monitors[from].position(id) {
            Some(at) => Some((from, at)),
            None => located(monitors, id, from + 1),
        }
    }
}

/// Workspaces of the first `count` monitors, monitor by monitor.
pub open spec fn attached(monitors: Seq<MonitorView>, count: nat) -> Seq<WorkspaceView>
    decreases count,
{
    if count == 0 {
        Seq::empty()
    } else {
        attached(monitors, (count - 1) as nat) + monitors[count - 1].workspaces
    }
}

/// First workspace from `from` on with the given name.
pub open spec fn named(workspaces: Seq<WorkspaceView>, name: Seq<char>, from: int) -> Option<
    WorkspaceView,
>
    decreases workspaces.len() - from,
{
    if from < 0 || from >= workspaces.len() {
        None
    } else if workspaces[from].config.name == name {
        Some(workspaces[from])
    } else {
        named(workspaces, name, from + 1)
    }
}

/// Most recently focused window of a workspace, among the windows from `from` on.
pub open spec fn recent_window(
    order: Seq<u128>,
    nodes: Seq<NodeView>,
    workspace: u128,
    from: int,
) -> Option<u128>
    decreases order.len() - from,
{
    if from < 0 || from >= order.len() {
        None
    } else {
        match node_position(nodes, order[from], 0) {
            Some(at) => if nodes[at].workspace == workspace {
                Some(order[from])
            } else {
                recent_window(order, nodes, workspace, from + 1)
            },
            None => recent_window(order, nodes, workspace, from + 1),
        }
    }
}

/// Native windows of the windows among the first `count` nodes.
pub open spec fn natives_of(nodes: Seq<NodeView>, count: nat) -> Seq<isize>
    decreases count,
{
    if count == 0 {
        Seq::empty()
    } else {
        let rest = natives_of(nodes, (count - 1) as nat);
        match nodes[count - 1].window() {
            Some(window) => rest.push(window.native),
            None => rest,
        }
    }
}

/// Whether a name is that of a spanning workspace.
pub open spec fn is_group_name(configs: Seq<WorkspaceConfigView>, name: Seq<char>) -> bool {
    spanning_config(configs, name, 0) is Some
}

/// Whether a workspace is the one that its monitor displays.
pub open spec fn shows(monitor: MonitorView, workspace: u128) -> bool {
    match monitor.displayed() {
        Some(at) => monitor.workspaces[at].id == workspace,
        None => false,
    }
}

/// Whether two lists of monitors are the same but for the workspaces on them.
pub open spec fn same_layout(a: Seq<MonitorView>, b: Seq<MonitorView>) -> bool {
    a.len() == b.len() && forall|i: int| #![trigger a[i]] #![trigger b[i]]
        0 <= i < a.len() ==> same_screen(a[i], b[i])
}

/// Whether two monitors are the same but for the workspaces on them.
pub open spec fn same_screen(a: MonitorView, b: MonitorView) -> bool {
    &&& a.id == b.id
    &&& a.device_name == b.device_name
    &&& a.device_path == b.device_path
    &&& a.bounds == b.bounds
    &&& a.workspace_area == b.workspace_area
}

/// Identifier that is given out after the given one.
pub open spec fn following_id(id: u128) -> u128 {
    if id < u128::MAX {
        (id + 1) as u128
    } else {
        id
    }
}

impl StateView {
    /// All active workspaces, monitor by monitor.
    pub open spec fn workspaces(self) -> Seq<WorkspaceView> {
        attached(self.monitors, self.monitors.len())
    }

    pub open spec fn workspace_by_name(self, name: Seq<char>) -> Option<WorkspaceView> {
        named(self.workspaces(), name, 0)
    }

    /// Position of a workspace.
    pub open spec fn locate(self, id: u128) -> Option<(int, int)> {
        located(self.monitors, id, 0)
    }

    pub open spec fn workspace(self, place: (int, int)) -> WorkspaceView {
        self.monitors[place.0].workspaces[place.1]
    }

    pub open spec fn focused_monitor(self) -> Option<int> {
        if self.focus_order.len() == 0 {
            None
        } else {
            monitor_position(self.monitors, self.focus_order[0], 0)
        }
    }

    /// Position of the focused workspace: the one displayed on the focused monitor.
    pub open spec fn focused_workspace(self) -> Option<(int, int)> {
        match self.focused_monitor() {
            Some(monitor) => match self.monitors[monitor].displayed() {
                Some(at) => Some((monitor, at)),
                None => None,
            },
            None => None,
        }
    }

    /// Container that gets focus along with a workspace: its most recently focused window, or
    /// the workspace itself.
    pub open spec fn container_to_focus(self, workspace: u128) -> ContainerRef {
        match recent_window(self.window_focus_order, self.nodes, workspace, 0) {
            Some(window) => ContainerRef::Window(window),
            None => ContainerRef::Workspace(workspace),
        }
    }

    pub open spec fn focused_container(self) -> Option<ContainerRef> {
        match self.focused_monitor() {
            Some(monitor) => match self.monitors[monitor].displayed() {
                Some(at) => Some(
                    self.container_to_focus(self.monitors[monitor].workspaces[at].id),
                ),
                None => Some(ContainerRef::Monitor(self.monitors[monitor].id)),
            },
            None => None,
        }
    }

    /// Whether a workspace is displayed on its monitor.
    pub open spec fn is_displayed(self, id: u128) -> bool {
        match self.locate(id) {
            Some(place) => shows(self.monitors[place.0], id),
            None => false,
        }
    }

    pub open spec fn has_children(self, workspace: u128) -> bool {
        has_nodes(self.nodes, workspace)
    }

    pub open spec fn set_monitor(self, monitor: int, value: MonitorView) -> StateView {
        StateView { monitors: self.monitors.update(monitor, value), ..self }
    }

    pub open spec fn set_workspace(self, place: (int, int), value: WorkspaceView) -> StateView {
        self.set_monitor(place.0, self.monitors[place.0].replace(place.1, value))
    }

    pub open spec fn attach(self, monitor: int, workspace: WorkspaceView) -> StateView {
        self.set_monitor(monitor, self.monitors[monitor].attach(workspace))
    }

    pub open spec fn detach(self, place: (int, int)) -> StateView {
        self.set_monitor(place.0, self.monitors[place.0].detach(place.1))
    }

    pub open spec fn emit(self, event: WmEventView) -> StateView {
        StateView { events: self.events.push(event), ..self }
    }

    pub open spec fn sync(self, pending_sync: PendingSyncView) -> StateView {
        StateView { pending_sync, ..self }
    }

    pub open spec fn redraw(self, id: u128) -> StateView {
        self.sync(self.pending_sync.redraw(id))
    }

    pub open spec fn focus_change(self) -> StateView {
        self.sync(self.pending_sync.focus_change())
    }

    /// Page that a workspace name stands for: that of the active workspace with the name, or
    /// else the one whose label it is.
    pub open spec fn resolve_target(
        self,
        configs: Seq<WorkspaceConfigView>,
        name: Seq<char>,
    ) -> Option<PageKeyView> {
        match self.workspace_by_name(name) {
            Some(workspace) => workspace.config.page_key(),
            None => parsed_label(name, |group: Seq<char>| is_group_name(configs, group)),
        }
    }

    /// The state with a workspace displayed and its monitor focused.
    pub open spec fn focus_workspace(self, id: u128) -> StateView {
        match self.locate(id) {
            Some((monitor, _)) => StateView {
                focus_order: moved_to_front(self.focus_order, self.monitors[monitor].id),
                ..self.set_monitor(monitor, self.monitors[monitor].display(id))
            },
            None => self,
        }
    }

    /// The state with a container focused, and with it everything that the container is in.
    pub open spec fn focus(self, container: ContainerRef) -> StateView {
        match container {
            ContainerRef::Monitor(id) => StateView {
                focus_order: moved_to_front(self.focus_order, id),
                ..self
            },
            ContainerRef::Workspace(id) => self.focus_workspace(id),
            ContainerRef::Window(id) => match node_position(self.nodes, id, 0) {
                Some(at) => StateView {
                    window_focus_order: moved_to_front(self.window_focus_order, id),
                    ..self
                }.focus_workspace(self.nodes[at].workspace),
                None => self,
            },
        }
    }

    /// The state with a workspace removed.
    pub open spec fn deactivate(self, id: u128) -> (StateView, Result<(), WmErrorView>) {
        match self.locate(id) {
            Some(place) => (
                self.detach(place).emit(
                    WmEventView::WorkspaceDeactivated {
                        deactivated_id: id,
                        deactivated_name: self.workspace(place).config.name,
                    },
                ),
                Ok(()),
            ),
            None => (self, Err(WmErrorView::Detached)),
        }
    }

    /// The state with the workspaces of a monitor in the order of the config.
    pub open spec fn sort(self, monitor: int, configs: Seq<WorkspaceConfigView>) -> StateView {
        self.set_monitor(
            monitor,
            MonitorView {
                workspaces: sorted_workspaces(configs, self.monitors[monitor].workspaces),
                ..self.monitors[monitor]
            },
        )
    }
}

pub proof fn lemma_located(monitors: Seq<MonitorView>, id: u128, from: int)
    requires
        0 <= from,
    ensures
        located(monitors, id, from) matches Some((monitor, at)) ==> from <= monitor
            < monitors.len() && 0 <= at < monitors[monitor].workspaces.len()
            && monitors[monitor].workspaces[at].id == id && monitors[monitor].position(id) == Some(
            at,
        ),
    decreases monitors.len() - from,
{
    if from < monitors.len() {
        crate::monitor::lemma_workspace_position(monitors[from].workspaces, id, 0);
        lemma_located(monitors, id, from + 1);
    }
}

pub proof fn lemma_monitor_position(monitors: Seq<MonitorView>, id: u128, from: int)
    requires
        0 <= from,
    ensures
        monitor_position(monitors, id, from) matches Some(at) ==> from <= at < monitors.len()
            && monitors[at].id == id,
    decreases monitors.len() - from,
{
    if from < monitors.len() {
        lemma_monitor_position(monitors, id, from + 1);
    }
}

/// View of an optional borrowed workspace.
pub open spec fn borrowed_workspace(workspace: Option<&Workspace>) -> Option<WorkspaceView> {
    match workspace {
        Some(workspace) => Some(workspace@),
        None => None,
    }
}

impl WmState {
    /// Creates a state without monitors.
    pub fn new() -> (state: WmState)
        ensures
            state@.is_valid(),
            state@.monitors.len() == 0,
            state@.nodes.len() == 0,
            state@.focus_order.len() == 0,
            state@.window_focus_order.len() == 0,
            state@.recent_workspace_name is None,
            state@.ignored_windows.len() == 0,
            state@.events.len() == 0,
            state@.pending_sync == PendingSyncView::empty(),
            !state@.is_focus_synced,
            !state@.is_paused,
            state@.next_id == 0,
    {
        WmState {
            monitors: Vec::new(),
            focus_order: Vec::new(),
            nodes: Vec::new(),
            window_focus_order: Vec::new(),
            recent_workspace_name: None,
            is_focus_synced: false,
            is_paused: false,
            ignored_windows: Vec::new(),
            pending_sync: PendingSync::new(),
            events: Vec::new(),
            next_id: 0,
        }
    }

    /// Native windows of all managed windows.
    pub fn native_windows(&self) -> (natives: Vec<isize>)
        ensures
            natives@ == natives_of(self@.nodes, self@.nodes.len()),
    {
        let mut natives: Vec<isize> = Vec::new();
        let mut i: usize = 0;
        while i < self.nodes.len()
            invariant
                i <= self.nodes@.len(),
                natives@ == natives_of(self@.nodes, i as nat),
            decreases self.nodes@.len() - i,
        {
            assert(self@.nodes[i as int] == self.nodes@[i as int]@);
            match &self.nodes[i].content {
                NodeContent::Window(window) => {
                    natives.push(window.native);
                },
                NodeContent::Split { .. } => {},
            }
            i = i + 1;
        }
        natives
    }

    /// Native window of a managed window.
    pub fn native_window(&self, window: u128) -> (native: Option<isize>)
        ensures
            native == match node_position(self@.nodes, window, 0) {
                Some(at) => match self@.nodes[at].window() {
                    Some(window) => Some(window.native),
                    None => None,
                },
                None => None,
            },
    {
        match find_node(&self.nodes, window) {
            Some(at) => {
                assert(self@.nodes[at as int] == self.nodes@[at as int]@);
                match &self.nodes[at].content {
                    NodeContent::Window(window) => Some(window.native),
                    NodeContent::Split { .. } => None,
                }
            },
            None => None,
        }
    }

    /// All active workspaces, monitor by monitor.
    pub fn workspaces(&self) -> (workspaces: Vec<&Workspace>)
        ensures
            borrowed_workspaces(workspaces@) == self@.workspaces(),
    {
        let mut workspaces: Vec<&Workspace> = Vec::new();
        let mut i: usize = 0;
        assert(borrowed_workspaces(workspaces@) =~= Seq::empty());
        while i < self.monitors.len()
            invariant
                i <= self.monitors@.len(),
                borrowed_workspaces(workspaces@) == attached(self@.monitors, i as nat),
            decreases self.monitors@.len() - i,
        {
            let monitor = &self.monitors[i];
            assert(self@.monitors[i as int] == monitor@);
            let ghost before = borrowed_workspaces(workspaces@);
            let mut j: usize = 0;
            assert(before + monitor@.workspaces.take(0) =~= before);
            while j < monitor.workspaces.len()
                invariant
                    j <= monitor.workspaces@.len(),
                    borrowed_workspaces(workspaces@) == before + monitor@.workspaces.take(j as int),
                decreases monitor.workspaces@.len() - j,
            {
                let ghost so_far = workspaces@;
                let workspace = &monitor.workspaces[j];
                assert(monitor@.workspaces[j as int] == workspace@);
                workspaces.push(workspace);
                assert(borrowed_workspaces(workspaces@) =~= borrowed_workspaces(so_far).push(
                    workspace@,
                ));
                assert(monitor@.workspaces.take(j + 1) =~= monitor@.workspaces.take(
                    j as int,
                ).push(workspace@));
                assert((before + monitor@.workspaces.take(j as int)).push(workspace@) =~= before
                    + monitor@.workspaces.take(j as int).push(workspace@));
                j = j + 1;
            }
            assert(monitor@.workspaces.take(j as int) =~= monitor@.workspaces);
            i = i + 1;
        }
        workspaces
    }

    /// First active workspace with the given name.
    pub fn workspace_by_name(&self, name: &str) -> (workspace: Option<&Workspace>)
        ensures
            borrowed_workspace(workspace) == self@.workspace_by_name(name@),
    {
        let workspaces = self.workspaces();
        let mut i: usize = 0;
        while i < workspaces.len()
            invariant
                i <= workspaces@.len(),
                borrowed_workspaces(workspaces@) == self@.workspaces(),
                self@.workspace_by_name(name@) == named(self@.workspaces(), name@, i as int),
            decreases workspaces@.len() - i,
        {
            let workspace = workspaces[i];
            assert(borrowed_workspaces(workspaces@)[i as int] == workspace@);
            if same_text(workspace.config.name.as_str(), name) {
                return Some(workspace);
            }
            i = i + 1;
        }
        None
    }

    /// Page that a workspace name stands for, if any.
    pub fn resolve_spanning_target(&self, name: &str, config: &UserConfig) -> (key: Option<PageKey>)
        ensures
            key_view(key) == self@.resolve_target(config.value@.workspaces, name@),
    {
        match self.workspace_by_name(name) {
            Some(workspace) => workspace.config.page_key(),
            None => {
                let ghost is_group = |group: Seq<char>|
                    is_group_name(config.value@.workspaces, group);
                let is_spanning = |group: &str| -> (found: bool)
                    ensures
                        found == is_group_name(config.value@.workspaces, group@)
                    { config.spanning_workspace_config(group).is_some() };
                let key = PageKey::parse(name, is_spanning);
                assert(key_view(key) == parsed_label(name@, is_group));
                key
            },
        }
    }

    /// Finds the monitor with the given identifier.
    pub fn find_monitor(&self, id: u128) -> (position: Option<usize>)
        ensures
            position_view(position) == monitor_position(self@.monitors, id, 0),
            position matches Some(at) ==> at < self.monitors@.len() && self.monitors@[at as int].id
                == id,
    {
        let mut i: usize = 0;
        while i < self.monitors.len()
            invariant
                i <= self.monitors@.len(),
                monitor_position(self@.monitors, id, 0) == monitor_position(
                    self@.monitors,
                    id,
                    i as int,
                ),
            decreases self.monitors@.len() - i,
        {
            assert(self@.monitors[i as int] == self.monitors@[i as int]@);
            if self.monitors[i].id == id {
                return Some(i);
            }
            i = i + 1;
        }
        None
    }

    /// Finds the monitor whose bounds contain the given point.
    pub fn monitor_at_point(&self, point: &Point) -> (position: Option<usize>)
        ensures
            position_view(position) == monitor_at(self@.monitors, *point, 0),
            position matches Some(at) ==> at < self.monitors@.len(),
    {
        let mut i: usize = 0;
        while i < self.monitors.len()
            invariant
                i <= self.monitors@.len(),
                monitor_at(self@.monitors, *point, 0) == monitor_at(
                    self@.monitors,
                    *point,
                    i as int,
                ),
            decreases self.monitors@.len() - i,
        {
            assert(self@.monitors[i as int] == self.monitors@[i as int]@);
            if self.monitors[i].bounds.contains_point(point) {
                return Some(i);
            }
            i = i + 1;
        }
        None
    }

    /// Finds a workspace.
    pub fn locate(&self, id: u128) -> (place: Option<(usize, usize)>)
        ensures
            place_view(place) == self@.locate(id),
            place matches Some((monitor, at)) ==> monitor < self.monitors@.len() && at
                < self.monitors@[monitor as int].workspaces@.len()
                && self.monitors@[monitor as int].workspaces@[at as int].id == id,
    {
        let mut i: usize = 0;
        while i < self.monitors.len()
            invariant
                i <= self.monitors@.len(),
                self@.locate(id) == located(self@.monitors, id, i as int),
            decreases self.monitors@.len() - i,
        {
            assert(self@.monitors[i as int] == self.monitors@[i as int]@);
            if let Some(at) = self.monitors[i].find_workspace(id) {
                return Some((i, at));
            }
            i = i + 1;
        }
        None
    }

    /// Finds the focused monitor.
    pub fn focused_monitor(&self) -> (monitor: Option<usize>)
        ensures
            position_view(monitor) == self@.focused_monitor(),
            monitor matches Some(at) ==> at < self.monitors@.len(),
    {
        if self.focus_order.len() == 0 {
            None
        } else {
            self.find_monitor(self.focus_order[0])
        }
    }

    /// Finds the focused workspace.
    pub fn focused_workspace(&self) -> (place: Option<(usize, usize)>)
        ensures
            place_view(place) == self@.focused_workspace(),
            place matches Some((monitor, at)) ==> monitor < self.monitors@.len() && at
                < self.monitors@[monitor as int].workspaces@.len(),
    {
        match self.focused_monitor() {
            Some(monitor) => {
                assert(self@.monitors[monitor as int] == self.monitors@[monitor as int]@);
                match self.monitors[monitor].displayed_workspace() {
                    Some(at) => Some((monitor, at)),
                    None => None,
                }
            },
            None => None,
        }
    }

    /// Container that gets focus along with a workspace.
    pub fn container_to_focus(&self, workspace: u128) -> (container: ContainerRef)
        ensures
            container == self@.container_to_focus(workspace),
    {
        let mut i: usize = 0;
        while i < self.window_focus_order.len()
            invariant
                i <= self.window_focus_order@.len(),
                recent_window(self@.window_focus_order, self@.nodes, workspace, 0)
                    == recent_window(self@.window_focus_order, self@.nodes, workspace, i as int),
            decreases self.window_focus_order@.len() - i,
        {
            let id = self.window_focus_order[i];
            if let Some(at) = find_node(&self.nodes, id) {
                assert(self@.nodes[at as int] == self.nodes@[at as int]@);
                if self.nodes[at].workspace == workspace {
                    return ContainerRef::Window(id);
                }
            }
            i = i + 1;
        }
        ContainerRef::Workspace(workspace)
    }

    /// The focused container.
    pub fn focused_container(&self) -> (container: Option<ContainerRef>)
        ensures
            container == self@.focused_container(),
    {
        match self.focused_monitor() {
            Some(monitor) => {
                assert(self@.monitors[monitor as int] == self.monitors@[monitor as int]@);
                match self.monitors[monitor].displayed_workspace() {
                    Some(at) => {
                        assert(self@.monitors[monitor as int].workspaces[at as int]
                            == self.monitors@[monitor as int].workspaces@[at as int]@);
                        Some(self.container_to_focus(self.monitors[monitor].workspaces[at].id))
                    },
                    None => Some(ContainerRef::Monitor(self.monitors[monitor].id)),
                }
            },
            None => None,
        }
    }

    /// Whether a workspace is displayed on its monitor.
    pub fn is_displayed(&self, id: u128) -> (displayed: bool)
        ensures
            displayed == self@.is_displayed(id),
    {
        match self.locate(id) {
            Some((monitor, _)) => {
                assert(self@.monitors[monitor as int] == self.monitors@[monitor as int]@);
                match self.monitors[monitor].displayed_workspace() {
                    Some(at) => {
                        assert(self@.monitors[monitor as int].workspaces[at as int]
                            == self.monitors@[monitor as int].workspaces@[at as int]@);
                        self.monitors[monitor].workspaces[at].id == id
                    },
                    None => false,
                }
            },
            None => false,
        }
    }

    pub fn has_children(&self, workspace: u128) -> (has: bool)
        ensures
            has == self@.has_children(workspace),
    {
        holds_nodes(&self.nodes, workspace)
    }

    pub fn emit_event(&mut self, event: WmEvent)
        ensures
            final(self)@ == old(self)@.emit(event@),
    {
        self.events.push(event);
        assert(self@.events =~= old(self)@.events.push(event@));
    }

    /// Attaches a workspace to a monitor, behind all others.
    pub fn attach_workspace(&mut self, monitor: usize, workspace: Workspace)
        requires
            monitor < old(self).monitors@.len(),
        ensures
            final(self)@ == old(self)@.attach(monitor as int, workspace@),
            same_layout(old(self)@.monitors, final(self)@.monitors),
    {
        self.monitors[monitor].attach(workspace);
        assert(self@.monitors =~= old(self)@.attach(monitor as int, workspace@).monitors);
    }

    /// Detaches a workspace from its monitor.
    pub fn detach_workspace(&mut self, monitor: usize, at: usize) -> (workspace: Workspace)
        requires
            monitor < old(self).monitors@.len(),
            at < old(self).monitors@[monitor as int].workspaces@.len(),
        ensures
            final(self)@ == old(self)@.detach((monitor as int, at as int)),
            workspace@ == (WorkspaceView {
                monitor: None,
                ..old(self)@.workspace((monitor as int, at as int))
            }),
            same_layout(old(self)@.monitors, final(self)@.monitors),
    {
        let workspace = self.monitors[monitor].detach(at);
        assert(self@.monitors =~= old(self)@.detach((monitor as int, at as int)).monitors);
        workspace
    }

    /// Sets which monitor a workspace belongs to.
    pub fn set_home(&mut self, monitor: usize, at: usize, home: Option<MonitorIdentity>)
        requires
            monitor < old(self).monitors@.len(),
            at < old(self).monitors@[monitor as int].workspaces@.len(),
        ensures
            final(self)@ == old(self)@.set_workspace(
                (monitor as int, at as int),
                WorkspaceView {
                    home: identity_view(home),
                    ..old(self)@.workspace((monitor as int, at as int))
                },
            ),
            same_layout(old(self)@.monitors, final(self)@.monitors),
    {
        let ghost workspace = WorkspaceView {
            home: identity_view(home),
            ..old(self)@.workspace((monitor as int, at as int))
        };
        let ghost place = (monitor as int, at as int);
        self.monitors[monitor].workspaces[at].home = home;
        assert(self@.monitors[place.0].workspaces
            =~= old(self)@.monitors[place.0].workspaces.update(place.1, workspace));
        assert(self@.monitors =~= old(self)@.set_workspace(place, workspace).monitors);
    }

    /// Sets the config of a workspace.
    pub fn set_config(&mut self, monitor: usize, at: usize, config: WorkspaceConfig)
        requires
            monitor < old(self).monitors@.len(),
            at < old(self).monitors@[monitor as int].workspaces@.len(),
        ensures
            final(self)@ == old(self)@.set_workspace(
                (monitor as int, at as int),
                WorkspaceView {
                    config: config@,
                    ..old(self)@.workspace((monitor as int, at as int))
                },
            ),
            same_layout(old(self)@.monitors, final(self)@.monitors),
    {
        let ghost workspace = WorkspaceView {
            config: config@,
            ..old(self)@.workspace((monitor as int, at as int))
        };
        let ghost place = (monitor as int, at as int);
        self.monitors[monitor].workspaces[at].config = config;
        assert(self@.monitors[place.0].workspaces
            =~= old(self)@.monitors[place.0].workspaces.update(place.1, workspace));
        assert(self@.monitors =~= old(self)@.set_workspace(place, workspace).monitors);
    }

    fn focus_workspace(&mut self, id: u128)
        ensures
            final(self)@ == old(self)@.focus_workspace(id),
            same_layout(old(self)@.monitors, final(self)@.monitors),
    {
        if let Some((monitor, _)) = self.locate(id) {
            assert(self@.monitors[monitor as int] == self.monitors@[monitor as int]@);
            let monitor_id = self.monitors[monitor].id;
            self.monitors[monitor].display(id);
            bump(&mut self.focus_order, monitor_id);
            assert(self@.monitors =~= old(self)@.focus_workspace(id).monitors);
        }
    }

    /// Focuses a container, and with it everything that the container is in.
    pub fn set_focused_descendant(&mut self, container: ContainerRef)
        ensures
            final(self)@ == old(self)@.focus(container),
            same_layout(old(self)@.monitors, final(self)@.monitors),
    {
        match container {
            ContainerRef::Monitor(id) => {
                bump(&mut self.focus_order, id);
            },
            ContainerRef::Workspace(id) => {
                self.focus_workspace(id);
            },
            ContainerRef::Window(id) => {
                if let Some(at) = find_node(&self.nodes, id) {
                    assert(self@.nodes[at as int] == self.nodes@[at as int]@);
                    let workspace = self.nodes[at].workspace;
                    bump(&mut self.window_focus_order, id);
                    self.focus_workspace(workspace);
                }
            },
        }
    }

    /// Removes a workspace.
    pub fn deactivate_workspace(&mut self, id: u128) -> (result: Result<(), WmError>)
        ensures
            final(self)@ == old(self)@.deactivate(id).0,
            outcome(result) == old(self)@.deactivate(id).1,
            same_layout(old(self)@.monitors, final(self)@.monitors),
    {
        match self.locate(id) {
            Some((monitor, at)) => {
                assert(old(self)@.monitors[monitor as int].workspaces[at as int]
                    == self.monitors@[monitor as int].workspaces@[at as int]@);
                let workspace = self.detach_workspace(monitor, at);
                self.emit_event(
                    WmEvent::WorkspaceDeactivated {
                        deactivated_id: id,
                        deactivated_name: workspace.config.name,
                    },
                );
                Ok(())
            },
            None => Err(WmError::Detached),
        }
    }

    /// Puts the workspaces of a monitor in the order of the config.
    pub fn sort_workspaces(&mut self, monitor: usize, config: &UserConfig)
        requires
            monitor < old(self).monitors@.len(),
        ensures
            final(self)@ == old(self)@.sort(monitor as int, config.value@.workspaces),
            same_layout(old(self)@.monitors, final(self)@.monitors),
    {
        config.sort_workspaces(&mut self.monitors[monitor].workspaces);
        assert(self@.monitors =~= old(self)@.sort(
            monitor as int,
            config.value@.workspaces,
        ).monitors);
    }

    /// Takes an identifier for a new workspace.
    pub fn take_id(&mut self) -> (id: u128)
        ensures
            id == old(self)@.next_id,
            final(self)@ == (StateView {
                next_id: following_id(old(self)@.next_id),
                ..old(self)@
            }),
    {
        let id = self.next_id;
        if id < u128::MAX {
            self.next_id = id + 1;
        }
        id
    }
}

} // verus!
