//! Recognizing monitors across changes of the monitor layout.
use vstd::prelude::*;

use crate::geometry::Rect;
use crate::monitor::{monitors_view, Monitor, MonitorView};
use crate::text::{clone_text, same_optional_text, text_view};

verus! {

/// How strongly a `MonitorIdentity` matches a monitor.
///
/// Variants are ordered from weakest to strongest match.
#[derive(Clone, Copy, Debug, PartialEq, Eq, PartialOrd, Ord, Structural)]
pub enum HomeMatch {
    /// Same left-to-right position in a layout with the same number of monitors.
    Index,
    /// Same display device, at different pixel bounds.
    Device,
    /// Same pixel bounds, on a different (or unknown) display device.
    Bounds,
    /// Same display device at the same pixel bounds.
    DeviceAndBounds,
}

impl HomeMatch {
    /// Rank of the match, larger for stronger matches.
    pub open spec fn spec_strength(self) -> int {
        match self {
            HomeMatch::Index => 0,
            HomeMatch::Device => 1,
            HomeMatch::Bounds => 2,
            HomeMatch::DeviceAndBounds => 3,
        }
    }

    pub fn strength(&self) -> (strength: i128)
        ensures
            strength == self.spec_strength(),
    {
        match self {
            HomeMatch::Index => 0,
            HomeMatch::Device => 1,
            HomeMatch::Bounds => 2,
            HomeMatch::DeviceAndBounds => 3,
        }
    }
}

/// Snapshot of a monitor's identity, used to find the monitor again after the monitor layout
/// changed (e.g. a disconnect followed by a reconnect).
///
/// A monitor that reappears with the same device path and bounds is an unambiguous match.
/// When the two disagree, the bounds win: RDP sessions hand out generic device paths that are
/// re-assigned to different monitors on every reconnect, whereas a monitor's position and size
/// in the layout are stable. The position within the layout is the last resort, for monitors
/// that changed both device and resolution.
#[derive(Debug, PartialEq, Eq)]
pub struct MonitorIdentity {
    pub device_path: Option<String>,
    pub bounds: Rect,
    /// Left-to-right position of the monitor within its layout.
    pub index: usize,
    /// Number of monitors in the layout the snapshot was taken in.
    pub monitor_count: usize,
}

pub struct MonitorIdentityView {
    pub device_path: Option<Seq<char>>,
    pub bounds: Rect,
    pub index: usize,
    pub monitor_count: usize,
}

impl View for MonitorIdentity {
    type V = MonitorIdentityView;

    open spec fn view(&self) -> MonitorIdentityView {
        MonitorIdentityView {
            device_path: text_view(self.device_path),
            bounds: self.bounds,
            index: self.index,
            monitor_count: self.monitor_count,
        }
    }
}

impl Clone for MonitorIdentity {
    fn clone(&self) -> (copy: Self)
        ensures
            copy@ == self@,
    {
        MonitorIdentity {
            device_path: clone_text(&self.device_path),
            bounds: self.bounds,
            index: self.index,
            monitor_count: self.monitor_count,
        }
    }
}

pub open spec fn identity_view(identity: Option<MonitorIdentity>) -> Option<MonitorIdentityView> {
    match identity {
        Some(identity) => Some(identity@),
        None => None,
    }
}

impl MonitorIdentityView {
    /// Identity of the monitor at the given position of a layout.
    pub open spec fn of(layout: Seq<MonitorView>, index: int) -> MonitorIdentityView {
        MonitorIdentityView {
            device_path: layout[index].device_path,
            bounds: layout[index].bounds,
            index: index as usize,
            monitor_count: layout.len() as usize,
        }
    }

    pub open spec fn is_same_device(self, monitor: MonitorView) -> bool {
        self.device_path is Some && self.device_path == monitor.device_path
    }

    /// The strongest criterion by which the identity matches the monitor at the given position
    /// of a layout.
    pub open spec fn matches(self, layout: Seq<MonitorView>, index: int) -> Option<HomeMatch> {
        let is_same_device = self.is_same_device(layout[index]);
        let is_same_bounds = self.bounds == layout[index].bounds;
        if is_same_device && is_same_bounds {
            Some(HomeMatch::DeviceAndBounds)
        } else if is_same_bounds {
            Some(HomeMatch::Bounds)
        } else if is_same_device {
            Some(HomeMatch::Device)
        } else if self.index == index && self.monitor_count == layout.len() {
            Some(HomeMatch::Index)
        } else {
            None
        }
    }
}

impl MonitorIdentity {
    /// Captures the identity of the monitor at the given position of its current layout.
    pub fn of(layout: &[Monitor], index: usize) -> (identity: MonitorIdentity)
        requires
            index < layout@.len(),
        ensures
            identity@ == MonitorIdentityView::of(monitors_view(layout@), index as int),
    {
        MonitorIdentity {
            device_path: clone_text(&layout[index].device_path),
            bounds: layout[index].bounds,
            index,
            monitor_count: layout_size(layout),
        }
    }

    /// Whether the monitor at the given position of a layout is the one this identity was
    /// captured from.
    ///
    /// Returns the strongest matching criterion, or `None` if the monitor doesn't match by any
    /// criterion.
    pub fn matches(&self, layout: &[Monitor], index: usize) -> (home_match: Option<HomeMatch>)
        requires
            index < layout@.len(),
        ensures
            home_match == self@.matches(monitors_view(layout@), index as int),
    {
        let monitor = &layout[index];
        let is_same_device = self.device_path.is_some() && same_optional_text(
            &self.device_path,
            &monitor.device_path,
        );
        let is_same_bounds = self.bounds == monitor.bounds;
        let is_same_position = self.index == index && self.monitor_count == layout_size(layout);
        match (is_same_device, is_same_bounds) {
            (true, true) => Some(HomeMatch::DeviceAndBounds),
            (false, true) => Some(HomeMatch::Bounds),
            (true, false) => Some(HomeMatch::Device),
            (false, false) => if is_same_position {
                Some(HomeMatch::Index)
            } else {
                None
            },
        }
    }
}

/// Number of monitors in a layout.
fn layout_size(layout: &[Monitor]) -> (size: usize)
    ensures
        size == layout@.len(),
{
    layout.len()
}

/// A monitor matches its own identity, and by both criteria if its device is known. No monitor
/// matches an identity more strongly than that.
pub proof fn law_monitor_matches_its_identity(layout: Seq<MonitorView>, index: int)
    requires
        0 <= index < layout.len() <= usize::MAX,
    ensures
        MonitorIdentityView::of(layout, index).matches(layout, index) == Some(
            if layout[index].device_path is Some {
                HomeMatch::DeviceAndBounds
            } else {
                HomeMatch::Bounds
            },
        ),
{
}

/// Where a device path and bounds point to different monitors, the match by bounds is the
/// stronger one.
pub proof fn law_bounds_beat_device(
    identity: MonitorIdentityView,
    layout: Seq<MonitorView>,
    by_bounds: int,
    by_device: int,
)
    requires
        identity.bounds == layout[by_bounds].bounds,
        identity.bounds != layout[by_device].bounds,
        identity.is_same_device(layout[by_device]),
    ensures
        identity.matches(layout, by_device) == Some(HomeMatch::Device),
        identity.matches(layout, by_bounds) is Some,
        identity.matches(layout, by_bounds)->0.spec_strength()
            > HomeMatch::Device.spec_strength(),
{
}

} // verus!
