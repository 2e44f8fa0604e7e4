//! Restoring windows that were left hidden.
use vstd::prelude::*;

use crate::container::{NodeContent, NodeContentView, NodeView};
use crate::text::{holds_text, text_view};
use crate::wm_state::WmState;

verus! {

/// Step of making a window visible again that failed.
#[derive(Clone, Copy, Debug, PartialEq, Eq, Structural)]
pub enum ReleaseFailure {
    Visibility,
    Taskbar,
}

/// Failures to log after a window that leaves the WM's control was made visible again.
///
/// A window on a hidden workspace is hidden (or cloaked) by the WM, and nothing would ever show
/// it again once the WM stops tracking it. Its taskbar button is restored as well, whether or
/// not showing the window succeeded. Failures are logged rather than returned, since the window
/// is a best-effort concern of the WM by now.
pub fn show_released_window(is_visible: bool, is_in_taskbar: bool) -> (failures: Vec<
    ReleaseFailure,
>)
    ensures
        failures@ == (if is_visible {
            Seq::<ReleaseFailure>::empty()
        } else {
            seq![ReleaseFailure::Visibility]
        }) + (if is_in_taskbar {
            Seq::<ReleaseFailure>::empty()
        } else {
            seq![ReleaseFailure::Taskbar]
        }),
{
    let mut failures: Vec<ReleaseFailure> = Vec::new();
    if !is_visible {
        failures.push(ReleaseFailure::Visibility);
    }
    if !is_in_taskbar {
        failures.push(ReleaseFailure::Taskbar);
    }
    assert(failures@ =~= (if is_visible {
        Seq::<ReleaseFailure>::empty()
    } else {
        seq![ReleaseFailure::Visibility]
    }) + (if is_in_taskbar {
        Seq::<ReleaseFailure>::empty()
    } else {
        seq![ReleaseFailure::Taskbar]
    }));
    failures
}

/// What the platform knows about a native window.
#[derive(Debug, PartialEq, Eq)]
pub struct NativeProperties {
    pub is_valid: bool,
    /// Name of the window's process, if it can be determined.
    pub process_name: Option<String>,
    /// Name of the window's class, if it can be determined.
    pub class_name: Option<String>,
}

/// Identity of a managed window.
///
/// The process and class name verify that a recorded handle still refers to the same window
/// when it's restored, since the OS recycles handles.
#[derive(Debug, PartialEq, Eq)]
pub struct WindowRecord {
    pub handle: isize,
    pub process_name: String,
    pub class_name: String,
}

pub struct WindowRecordView {
    pub handle: isize,
    pub process_name: Seq<char>,
    pub class_name: Seq<char>,
}

impl View for WindowRecord {
    type V = WindowRecordView;

    open spec fn view(&self) -> WindowRecordView {
        WindowRecordView {
            handle: self.handle,
            process_name: self.process_name@,
            class_name: self.class_name@,
        }
    }
}

pub open spec fn records_view(records: Seq<WindowRecord>) -> Seq<WindowRecordView> {
    records.map_values(|record: WindowRecord| record@)
}

/// View of an optional list of records.
pub open spec fn written_view(records: Option<Vec<WindowRecord>>) -> Option<Seq<WindowRecordView>> {
    match records {
        Some(records) => Some(records_view(records@)),
        None => None,
    }
}

impl WindowRecord {
    /// Whether the recorded handle still refers to the recorded window.
    pub fn matches(&self, native_window: &NativeProperties) -> (matches: bool)
        ensures
            matches == (native_window.is_valid && text_view(native_window.process_name) == Some(
                self@.process_name,
            ) && text_view(native_window.class_name) == Some(self@.class_name)),
    {
        native_window.is_valid && holds_text(
            &native_window.process_name,
            self.process_name.as_str(),
        ) && holds_text(&native_window.class_name, self.class_name.as_str())
    }

    fn same(&self, other: &WindowRecord) -> (same: bool)
        ensures
            same == (self@ == other@),
    {
        self.handle == other.handle && self.process_name == other.process_name
            && self.class_name == other.class_name
    }
}

/// Records of the windows among the first `count` nodes.
pub open spec fn window_records(nodes: Seq<NodeView>, count: nat) -> Seq<WindowRecordView>
    decreases count,
{
    if count == 0 {
        Seq::empty()
    } else {
        let rest = window_records(nodes, (count - 1) as nat);
        match nodes[count - 1].window() {
            Some(window) => rest.push(
                WindowRecordView {
                    handle: window.native,
                    process_name: window.process_name,
                    class_name: window.class_name,
                },
            ),
            None => rest,
        }
    }
}

/// Every managed window has its record, whether or not it is displayed, in the order in which the
/// windows are managed, and there are no other records: `origins` holds the positions of the
/// windows.
pub proof fn law_every_window_is_recorded(nodes: Seq<NodeView>, count: nat) -> (origins: Seq<int>)
    requires
        count <= nodes.len(),
    ensures
        origins.len() == window_records(nodes, count).len(),
        forall|k: int, l: int|
            0 <= k < l < origins.len() ==> (#[trigger] origins[k]) < (#[trigger] origins[l]),
        forall|k: int|
            0 <= k < origins.len() ==> 0 <= #[trigger] origins[k] < count && (
            nodes[origins[k]].content matches NodeContentView::Window(window) && window_records(
                nodes,
                count,
            )[k].handle == window.native && window_records(nodes, count)[k].process_name
                == window.process_name && window_records(nodes, count)[k].class_name
                == window.class_name),
        forall|i: int|
            0 <= i < count ==> (#[trigger] origins.contains(i) <==> nodes[i].content is Window),
    decreases count,
{
    if count == 0 {
        Seq::empty()
    } else {
        let last = count - 1;
        let rest = law_every_window_is_recorded(nodes, last as nat);
        if nodes[last].content is Window {
            crate::rule_laws::lemma_pushed(rest, last);
            rest.push(last)
        } else {
            assert(!rest.contains(last));
            rest
        }
    }
}

/// Record of the windows managed by the WM, persisted across runs.
///
/// The WM hides windows on non-displayed workspaces, and the OS never shows them again by
/// itself (in particular, a cloak is never lifted). The exit cleanup and the watcher process
/// restore them, but neither runs when both processes are killed at once (e.g. via Task
/// Manager). The record allows the next WM instance to restore exactly the windows its
/// predecessor left hidden, without touching the system windows that are cloaked by design
/// (e.g. the Start menu).
#[derive(Debug)]
pub struct ManagedWindowsRecord {
    /// Path of the record file.
    pub path: String,
    /// Records as last written to the file, to skip redundant writes.
    pub last_written: Option<Vec<WindowRecord>>,
}

fn same_records(a: &Vec<WindowRecord>, b: &Vec<WindowRecord>) -> (same: bool)
    ensures
        same == (records_view(a@) == records_view(b@)),
{
    if a.len() != b.len() {
        assert(records_view(a@).len() != records_view(b@).len());
        return false;
    }
    let mut i: usize = 0;
    while i < a.len()
        invariant
            i <= a@.len(),
            a@.len() == b@.len(),
            forall|j: int| 0 <= j < i ==> (#[trigger] a@[j])@ == b@[j]@,
        decreases a@.len() - i,
    {
        if !a[i].same(&b[i]) {
            assert(records_view(a@)[i as int] != records_view(b@)[i as int]);
            return false;
        }
        i = i + 1;
    }
    assert(records_view(a@) =~= records_view(b@));
    true
}

impl ManagedWindowsRecord {
    /// Creates the record at the given file path.
    pub fn at_path(path: String) -> (record: ManagedWindowsRecord)
        ensures
            record.path@ == path@,
            record.last_written is None,
    {
        ManagedWindowsRecord { path, last_written: None }
    }

    /// Records of the currently managed windows, if they have to be written to the file.
    pub fn update(&self, state: &WmState) -> (records: Option<Vec<WindowRecord>>)
        ensures
            written_view(records) == ({
                let current = window_records(state@.nodes, state@.nodes.len());
                if written_view(self.last_written) == Some(current) {
                    None
                } else {
                    Some(current)
                }
            }),
    {
        let mut records: Vec<WindowRecord> = Vec::new();
        let mut i: usize = 0;
        assert(records_view(records@) =~= Seq::empty());
        while i < state.nodes.len()
            invariant
                i <= state.nodes@.len(),
                records_view(records@) == window_records(state@.nodes, i as nat),
            decreases state.nodes@.len() - i,
        {
            assert(state@.nodes[i as int] == state.nodes@[i as int]@);
            match &state.nodes[i].content {
                NodeContent::Window(window) => {
                    let ghost before = records@;
                    let record = WindowRecord {
                        handle: window.native,
                        process_name: window.process_name.clone(),
                        class_name: window.class_name.clone(),
                    };
                    records.push(record);
                    assert(records_view(records@) =~= records_view(before).push(record@));
                },
                NodeContent::Split { .. } => {},
            }
            i = i + 1;
        }
        if self.is_written(&records) {
            None
        } else {
            Some(records)
        }
    }

    /// Whether the records are already written to the file.
    pub fn is_written(&self, records: &Vec<WindowRecord>) -> (written: bool)
        ensures
            written == (written_view(self.last_written) == Some(records_view(records@))),
    {
        match &self.last_written {
            Some(last_written) => same_records(last_written, records),
            None => false,
        }
    }

    /// Remembers the records as written to the file.
    pub fn mark_written(&mut self, records: Vec<WindowRecord>)
        ensures
            final(self).path@ == old(self).path@,
            written_view(final(self).last_written) == Some(records_view(records@)),
    {
        self.last_written = Some(records);
    }

    /// Remembers that the record was removed once the WM has restored its windows on exit, so
    /// that the next instance has nothing to recover.
    pub fn clear(&mut self)
        ensures
            final(self).path@ == old(self).path@,
            written_view(final(self).last_written) == Some(Seq::<WindowRecordView>::empty()),
    {
        self.last_written = Some(Vec::new());
        assert(written_view(self.last_written)->0 =~= Seq::<WindowRecordView>::empty());
    }
}

} // verus!
