//! Assigning the instances of a spanning workspace to monitors and pages.
use vstd::prelude::*;

use crate::monitor::{monitors_view, position_view, Monitor, MonitorView};
use crate::monitor_identity::HomeMatch;
use crate::stable_sort::{sort_ranked, stable_sorted, Ranked, SortKey};
use crate::user_config::borrowed_workspaces;
use crate::wm_state::monitor_position;
use crate::workspace::{Workspace, WorkspaceView};

verus! {

/// Target location of an instance of a spanning workspace group.
#[derive(Clone, Copy, Debug, PartialEq, Eq, Structural)]
pub struct PagePlacement {
    /// Identifier of the instance.
    pub workspace: u128,
    /// Position of the instance among the instances that were placed.
    pub instance: usize,
    /// Position of the monitor.
    pub monitor: usize,
    pub page: usize,
    /// Whether `monitor` is the instance's home monitor, as opposed to a monitor merely hosting
    /// it while its home is disconnected.
    pub is_home: bool,
}

/// Claim of an instance to a monitor that matches its home.
#[derive(Clone, Copy, Debug, PartialEq, Eq, Structural)]
pub struct Claim {
    pub instance: usize,
    pub monitor: usize,
}

/// How strongly the home of an instance matches the monitor at the given position.
pub open spec fn claim_strength(
    instance: WorkspaceView,
    monitors: Seq<MonitorView>,
    monitor: int,
) -> Option<HomeMatch> {
    match instance.home {
        Some(home) => home.matches(monitors, monitor),
        None => None,
    }
}

/// Position of the monitor that an instance is currently on.
pub open spec fn host_position(instance: WorkspaceView, monitors: Seq<MonitorView>) -> Option<int> {
    match instance.monitor {
        Some(id) => monitor_position(monitors, id, 0),
        None => None,
    }
}

/// Key by which claims are ordered: the strongest come first, then those to the current host,
/// then those with the leftmost home.
pub open spec fn claim_key(
    instance: WorkspaceView,
    at: int,
    monitors: Seq<MonitorView>,
    monitor: int,
) -> SortKey {
    SortKey {
        a: -claim_strength(instance, monitors, monitor)->0.spec_strength() as i128,
        b: if host_position(instance, monitors) == Some(monitor) {
            0
        } else {
            1
        },
        c: instance.home->0.index as i128,
        d: at as i128,
    }
}

/// Claims of the instance at position `at` to the first `count` monitors.
pub open spec fn claims_of(
    instance: WorkspaceView,
    at: int,
    monitors: Seq<MonitorView>,
    count: nat,
) -> Seq<Ranked<Claim>>
    decreases count,
{
    if count == 0 {
        Seq::empty()
    } else {
        let rest = claims_of(instance, at, monitors, (count - 1) as nat);
        if claim_strength(instance, monitors, count - 1) is Some {
            rest.push(
                Ranked {
                    key: claim_key(instance, at, monitors, count - 1),
                    item: Claim { instance: at as usize, monitor: (count - 1) as usize },
                },
            )
        } else {
            rest
        }
    }
}

/// Claims of the first `count` instances.
pub open spec fn claims(
    instances: Seq<WorkspaceView>,
    monitors: Seq<MonitorView>,
    count: nat,
) -> Seq<Ranked<Claim>>
    decreases count,
{
    if count == 0 {
        Seq::empty()
    } else {
        claims(instances, monitors, (count - 1) as nat) + claims_of(
            instances[count - 1],
            count - 1,
            monitors,
            monitors.len(),
        )
    }
}

pub open spec fn places_instance(placements: Seq<PagePlacement>, instance: usize) -> bool {
    exists|k: int| 0 <= k < placements.len() && (#[trigger] placements[k]).instance == instance
}

pub open spec fn places_monitor(placements: Seq<PagePlacement>, monitor: usize) -> bool {
    exists|k: int| 0 <= k < placements.len() && (#[trigger] placements[k]).monitor == monitor
}

/// Placements from the first `count` claims, each of which is granted unless its instance or its
/// monitor is taken already.
pub open spec fn granted(
    instances: Seq<WorkspaceView>,
    claims: Seq<Ranked<Claim>>,
    count: nat,
) -> Seq<PagePlacement>
    decreases count,
{
    if count == 0 {
        Seq::empty()
    } else {
        let rest = granted(instances, claims, (count - 1) as nat);
        let claim = claims[count - 1].item;
        if places_instance(rest, claim.instance) || places_monitor(rest, claim.monitor) {
            rest
        } else {
            rest.push(home_placement(instances, claim))
        }
    }
}

pub open spec fn home_placement(instances: Seq<WorkspaceView>, claim: Claim) -> PagePlacement {
    PagePlacement {
        workspace: instances[claim.instance as int].id,
        instance: claim.instance,
        monitor: claim.monitor,
        page: 1,
        is_home: true,
    }
}

/// All claims, in the order in which they are granted.
pub open spec fn claim_order(
    instances: Seq<WorkspaceView>,
    monitors: Seq<MonitorView>,
) -> Seq<Ranked<Claim>> {
    stable_sorted(claims(instances, monitors, instances.len()))
}

/// Placements of the instances that get their home monitor.
pub open spec fn home_placements(
    instances: Seq<WorkspaceView>,
    monitors: Seq<MonitorView>,
) -> Seq<PagePlacement> {
    granted(instances, claim_order(instances, monitors), claim_order(instances, monitors).len())
}

/// The first `count` monitors without those that have a placement.
pub open spec fn free_monitors(placements: Seq<PagePlacement>, count: nat) -> Seq<usize>
    decreases count,
{
    if count == 0 {
        Seq::empty()
    } else {
        let rest = free_monitors(placements, (count - 1) as nat);
        if places_monitor(placements, (count - 1) as usize) {
            rest
        } else {
            rest.push((count - 1) as usize)
        }
    }
}

/// The first `count` instances without those that have a placement.
pub open spec fn unplaced(placements: Seq<PagePlacement>, count: nat) -> Seq<usize>
    decreases count,
{
    if count == 0 {
        Seq::empty()
    } else {
        let rest = unplaced(placements, (count - 1) as nat);
        if places_instance(placements, (count - 1) as usize) {
            rest
        } else {
            rest.push((count - 1) as usize)
        }
    }
}

/// Key by which instances without their home monitor are ordered: by the layout size and
/// position of their home, those without a home last and in their current order.
pub open spec fn orphan_key(instance: WorkspaceView, monitors: Seq<MonitorView>) -> SortKey {
    SortKey {
        a: match instance.home {
            Some(home) => -home.monitor_count as i128,
            None => 0,
        },
        b: match instance.home {
            Some(home) => home.index as i128,
            None => usize::MAX as i128,
        },
        c: instance.config.spanning_page as i128,
        d: match host_position(instance, monitors) {
            Some(position) => position as i128,
            None => usize::MAX as i128,
        },
    }
}

pub open spec fn orphan_entries(
    instances: Seq<WorkspaceView>,
    monitors: Seq<MonitorView>,
    orphans: Seq<usize>,
) -> Seq<Ranked<usize>> {
    Seq::new(
        orphans.len(),
        |k: int|
            Ranked {
                key: orphan_key(instances[orphans[k] as int], monitors),
                item: orphans[k],
            },
    )
}

/// Monitor and page of the orphan at the given place in the order of orphans. The free
/// monitors of the first page are filled from left to right, then one page after the other.
pub open spec fn orphan_slot(free: Seq<usize>, monitor_count: nat, place: int) -> (int, int) {
    if place < free.len() {
        (free[place] as int, 1)
    } else {
        (
            (place - free.len()) % (monitor_count as int),
            2 + (place - free.len()) / (monitor_count as int),
        )
    }
}

pub open spec fn orphan_placement(
    instances: Seq<WorkspaceView>,
    free: Seq<usize>,
    monitor_count: nat,
    order: Seq<Ranked<usize>>,
    place: int,
) -> PagePlacement {
    PagePlacement {
        workspace: instances[order[place].item as int].id,
        instance: order[place].item,
        monitor: orphan_slot(free, monitor_count, place).0 as usize,
        page: orphan_slot(free, monitor_count, place).1 as usize,
        is_home: false,
    }
}

/// Placements of the given orphans on the free monitors of the first page and on further pages.
pub open spec fn orphan_placements(
    instances: Seq<WorkspaceView>,
    monitors: Seq<MonitorView>,
    orphans: Seq<usize>,
    free: Seq<usize>,
) -> Seq<PagePlacement> {
    let order = stable_sorted(orphan_entries(instances, monitors, orphans));
    Seq::new(
        order.len(),
        |place: int| orphan_placement(instances, free, monitors.len(), order, place),
    )
}

/// Placements of all instances of a group.
pub open spec fn page_placements(
    instances: Seq<WorkspaceView>,
    monitors: Seq<MonitorView>,
) -> Seq<PagePlacement> {
    if monitors.len() == 0 {
        Seq::empty()
    } else {
        let homes = home_placements(instances, monitors);
        homes + orphan_placements(
            instances,
            monitors,
            unplaced(homes, instances.len()),
            free_monitors(homes, monitors.len()),
        )
    }
}

/// Position of the workspace's current monitor within `monitors`.
fn host_index(workspace: &Workspace, monitors: &[Monitor]) -> (host: Option<usize>)
    ensures
        position_view(host) == host_position(workspace@, monitors_view(monitors@)),
{
    match workspace.monitor {
        Some(id) => {
            let mut i: usize = 0;
            while i < monitors.len()
                invariant
                    i <= monitors@.len(),
                    workspace.monitor == Some(id),
                    monitor_position(monitors_view(monitors@), id, 0) == monitor_position(
                        monitors_view(monitors@),
                        id,
                        i as int,
                    ),
                decreases monitors@.len() - i,
            {
                assert(monitors_view(monitors@)[i as int] == monitors@[i as int]@);
                if monitors[i].id == id {
                    return Some(i);
                }
                i = i + 1;
            }
            None
        },
        None => None,
    }
}

/// Whether an instance or a monitor is taken by a placement.
fn is_taken(placements: &Vec<PagePlacement>, claim: &Claim) -> (taken: bool)
    ensures
        taken == (places_instance(placements@, claim.instance) || places_monitor(
            placements@,
            claim.monitor,
        )),
{
    let mut i: usize = 0;
    while i < placements.len()
        invariant
            i <= placements@.len(),
            forall|k: int|
                0 <= k < i ==> (#[trigger] placements@[k]).instance != claim.instance
                    && placements@[k].monitor != claim.monitor,
        decreases placements@.len() - i,
    {
        if placements[i].instance == claim.instance || placements[i].monitor == claim.monitor {
            return true;
        }
        i = i + 1;
    }
    false
}

/// Claims of one instance to all monitors that match its home, behind the given claims.
fn push_claims(
    claims: &mut Vec<Ranked<Claim>>,
    instance: &Workspace,
    at: usize,
    monitors: &[Monitor],
)
    ensures
        final(claims)@ == old(claims)@ + claims_of(
            instance@,
            at as int,
            monitors_view(monitors@),
            monitors@.len(),
        ),
{
    let host = host_index(instance, monitors);
    let ghost layout = monitors_view(monitors@);
    let mut m: usize = 0;
    assert(claims@ =~= old(claims)@ + claims_of(instance@, at as int, layout, 0));
    while m < monitors.len()
        invariant
            m <= monitors@.len(),
            layout == monitors_view(monitors@),
            position_view(host) == host_position(instance@, layout),
            claims@ == old(claims)@ + claims_of(instance@, at as int, layout, m as nat),
        decreases monitors@.len() - m,
    {
        let ghost before = claims@;
        if let Some(home) = &instance.home {
            if let Some(strength) = home.matches(monitors, m) {
                let is_host = match host {
                    Some(host) => host == m,
                    None => false,
                };
                let b: i128 = if is_host {
                    0
                } else {
                    1
                };
                let key = SortKey { a: -strength.strength(), b, c: home.index as i128, d: at as i128 };
                claims.push(Ranked { key, item: Claim { instance: at, monitor: m } });
            }
        }
        assert(claims@ =~= old(claims)@ + claims_of(instance@, at as int, layout, (m + 1) as nat));
        m = m + 1;
    }
}

/// Matches instances to their home monitors, placing them on the first page.
fn match_home_monitors(instances: &[&Workspace], monitors: &[Monitor]) -> (placements: Vec<
    PagePlacement,
>)
    ensures
        placements@ == home_placements(
            borrowed_workspaces(instances@),
            monitors_view(monitors@),
        ),
{
    let ghost all = borrowed_workspaces(instances@);
    let ghost layout = monitors_view(monitors@);
    let mut candidates: Vec<Ranked<Claim>> = Vec::new();
    let mut i: usize = 0;
    while i < instances.len()
        invariant
            i <= instances@.len(),
            all == borrowed_workspaces(instances@),
            layout == monitors_view(monitors@),
            candidates@ == claims(all, layout, i as nat),
        decreases instances@.len() - i,
    {
        assert(all[i as int] == instances@[i as int]@);
        push_claims(&mut candidates, instances[i], i, monitors);
        i = i + 1;
    }
    let order = sort_ranked(candidates);
    let monitor_count = monitors.len();
    let mut placements: Vec<PagePlacement> = Vec::new();
    let mut n: usize = 0;
    proof {
        lemma_claim_order(all, layout);
    }
    while n < order.len()
        invariant
            n <= order@.len(),
            all == borrowed_workspaces(instances@),
            layout == monitors_view(monitors@),
            order@ == claim_order(all, layout),
            forall|k: int| 0 <= k < order@.len() ==> is_claim(all, layout, #[trigger] order@[k]),
            placements@ == granted(all, order@, n as nat),
        decreases order@.len() - n,
    {
        let claim = order[n].item;
        assert(is_claim(all, layout, order@[n as int]));
        if !is_taken(&placements, &claim) {
            assert(all[claim.instance as int] == instances@[claim.instance as int]@);
            placements.push(
                PagePlacement {
                    workspace: instances[claim.instance].id,
                    instance: claim.instance,
                    monitor: claim.monitor,
                    page: 1,
                    is_home: true,
                },
            );
        }
        n = n + 1;
    }
    placements
}

/// Packs the instances that didn't match a home monitor into the free slots, page by page and
/// from left to right.
///
/// Screens of disconnected monitors come first, ordered by their home's layout size and
/// position, so that e.g. the screens of a 4-monitor layout shown on 2 monitors keep their
/// left-to-right order. Instances without a home follow in their current order.
fn place_orphans(
    orphans: &Vec<usize>,
    instances: &[&Workspace],
    monitors: &[Monitor],
    placements: &mut Vec<PagePlacement>,
    free_slots: &Vec<usize>,
)
    requires
        monitors@.len() > 0,
        free_slots@.len() <= monitors@.len(),
        orphans@.len() + (monitors@.len() - free_slots@.len()) <= usize::MAX,
        forall|k: int| 0 <= k < orphans@.len() ==> (#[trigger] orphans@[k]) < instances@.len(),
    ensures
        final(placements)@ == old(placements)@ + orphan_placements(
            borrowed_workspaces(instances@),
            monitors_view(monitors@),
            orphans@,
            free_slots@,
        ),
{
    let ghost all = borrowed_workspaces(instances@);
    let ghost layout = monitors_view(monitors@);
    let mut entries: Vec<Ranked<usize>> = Vec::new();
    let mut i: usize = 0;
    while i < orphans.len()
        invariant
            i <= orphans@.len(),
            all == borrowed_workspaces(instances@),
            layout == monitors_view(monitors@),
            forall|k: int| 0 <= k < orphans@.len() ==> (#[trigger] orphans@[k]) < instances@.len(),
            entries@.len() == i,
            forall|k: int| 0 <= k < i ==> entries@[k] == orphan_entries(all, layout, orphans@)[k],
        decreases orphans@.len() - i,
    {
        let index = orphans[i];
        let workspace = instances[index];
        assert(all[index as int] == workspace@);
        let a: i128 = match &workspace.home {
            Some(home) => -(home.monitor_count as i128),
            None => 0,
        };
        let b: i128 = match &workspace.home {
            Some(home) => home.index as i128,
            None => usize::MAX as i128,
        };
        let d: i128 = match host_index(workspace, monitors) {
            Some(host) => host as i128,
            None => usize::MAX as i128,
        };
        let key = SortKey { a, b, c: workspace.config.spanning_page as i128, d };
        entries.push(Ranked { key, item: index });
        i = i + 1;
    }
    assert(entries@ =~= orphan_entries(all, layout, orphans@));
    proof {
        crate::stable_sort::lemma_sorting_keeps(entries@);
    }
    let order = sort_ranked(entries);
    let ghost start = placements@;
    let ghost packed = orphan_placements(all, layout, orphans@, free_slots@);
    let mut k: usize = 0;
    assert(placements@ =~= start + packed.take(0));
    while k < order.len()
        invariant
            k <= order@.len(),
            all == borrowed_workspaces(instances@),
            layout == monitors_view(monitors@),
            order@ == stable_sorted(orphan_entries(all, layout, orphans@)),
            order@.len() == orphans@.len(),
            packed == orphan_placements(all, layout, orphans@, free_slots@),
            monitors@.len() > 0,
            free_slots@.len() <= monitors@.len(),
            orphans@.len() + (monitors@.len() - free_slots@.len()) <= usize::MAX,
            forall|j: int|
                0 <= j < order@.len() ==> (#[trigger] order@[j]).item < instances@.len(),
            placements@ == start + packed.take(k as int),
        decreases order@.len() - k,
    {
        let index = order[k].item;
        assert(all[index as int] == instances@[index as int]@);
        let (monitor, page): (usize, usize) = if k < free_slots.len() {
            (free_slots[k], 1)
        } else {
            let further: usize = k - free_slots.len();
            assert(further / monitors@.len() as usize <= further) by (nonlinear_arith)
                requires
                    monitors@.len() > 0,
                    monitors@.len() <= usize::MAX,
            ;
            (further % monitors.len(), 2 + further / monitors.len())
        };
        let ghost before = placements@;
        placements.push(
            PagePlacement {
                workspace: instances[index].id,
                instance: index,
                monitor,
                page,
                is_home: false,
            },
        );
        assert(placements@.last() == packed[k as int]);
        assert(packed.take(k + 1) =~= packed.take(k as int).push(packed[k as int]));
        assert(placements@ =~= start + packed.take(k + 1));
        k = k + 1;
    }
    assert(packed.take(k as int) =~= packed);
}

/// Pages of the first `count` placements, each page once.
pub open spec fn used_pages(placements: Seq<PagePlacement>, count: nat) -> Seq<usize>
    decreases count,
{
    if count == 0 {
        Seq::empty()
    } else {
        let rest = used_pages(placements, (count - 1) as nat);
        if rest.contains(placements[count - 1].page) {
            rest
        } else {
            rest.push(placements[count - 1].page)
        }
    }
}

/// Those of the first `count` pages that come before the given one.
pub open spec fn pages_before(pages: Seq<usize>, page: usize, count: nat) -> Seq<usize>
    decreases count,
{
    if count == 0 {
        Seq::empty()
    } else {
        let rest = pages_before(pages, page, (count - 1) as nat);
        if pages[count - 1] < page {
            rest.push(pages[count - 1])
        } else {
            rest
        }
    }
}

/// Number that a page gets when the used pages are numbered from 1.
pub open spec fn compacted_page(pages: Seq<usize>, page: usize) -> nat {
    1 + pages_before(pages, page, pages.len()).len()
}

/// The placements with the used pages numbered from 1.
pub open spec fn compacted(placements: Seq<PagePlacement>) -> Seq<PagePlacement> {
    let pages = used_pages(placements, placements.len());
    Seq::new(
        placements.len(),
        |k: int|
            PagePlacement {
                page: compacted_page(pages, placements[k].page) as usize,
                ..placements[k]
            },
    )
}

fn contains_page(pages: &Vec<usize>, page: usize) -> (found: bool)
    ensures
        found == pages@.contains(page),
{
    let mut i: usize = 0;
    while i < pages.len()
        invariant
            i <= pages@.len(),
            forall|j: int| 0 <= j < i ==> pages@[j] != page,
        decreases pages@.len() - i,
    {
        if pages[i] == page {
            return true;
        }
        i = i + 1;
    }
    false
}

/// Renumbers pages so that they're contiguous, starting at 1.
fn compact_pages(placements: &mut Vec<PagePlacement>)
    ensures
        final(placements)@ == compacted(old(placements)@),
{
    let ghost input = placements@;
    let mut used: Vec<usize> = Vec::new();
    let mut i: usize = 0;
    while i < placements.len()
        invariant
            i <= placements@.len(),
            placements@ == input,
            used@ == used_pages(input, i as nat),
        decreases placements@.len() - i,
    {
        if !contains_page(&used, placements[i].page) {
            used.push(placements[i].page);
        }
        i = i + 1;
    }
    proof {
        lemma_used_pages(input, input.len());
    }
    let mut k: usize = 0;
    while k < placements.len()
        invariant
            k <= placements@.len(),
            placements@.len() == input.len(),
            used@ == used_pages(input, input.len()),
            forall|j: int| 0 <= j < input.len() ==> used@.contains((#[trigger] input[j]).page),
            forall|j: int| 0 <= j < k ==> placements@[j] == compacted(input)[j],
            forall|j: int| k <= j < input.len() ==> placements@[j] == input[j],
        decreases placements@.len() - k,
    {
        let page = placements[k].page;
        let mut before: usize = 0;
        let mut j: usize = 0;
        while j < used.len()
            invariant
                j <= used@.len(),
                before == pages_before(used@, page, j as nat).len(),
                before <= j,
            decreases used@.len() - j,
        {
            if used[j] < page {
                before = before + 1;
            }
            j = j + 1;
        }
        assert(used@.contains(input[k as int].page));
        proof {
            let at = choose|at: int| 0 <= at < used@.len() && used@[at] == page;
            lemma_pages_before(used@, page, used@.len(), at);
        }
        placements[k].page = before + 1;
        k = k + 1;
    }
    assert(placements@ =~= compacted(input));
}

/// Positions of the first `count` monitors that have no placement.
fn unclaimed_monitors(placements: &Vec<PagePlacement>, count: usize) -> (free: Vec<usize>)
    ensures
        free@ == free_monitors(placements@, count as nat),
{
    let mut free: Vec<usize> = Vec::new();
    let mut m: usize = 0;
    while m < count
        invariant
            m <= count,
            free@ == free_monitors(placements@, m as nat),
        decreases count - m,
    {
        let mut taken = false;
        let mut i: usize = 0;
        while i < placements.len()
            invariant
                i <= placements@.len(),
                taken == exists|k: int|
                    0 <= k < i && (#[trigger] placements@[k]).monitor == m,
            decreases placements@.len() - i,
        {
            if placements[i].monitor == m {
                taken = true;
            }
            i = i + 1;
        }
        if !taken {
            free.push(m);
        }
        m = m + 1;
    }
    free
}

/// Positions of the first `count` instances that have no placement.
fn unplaced_instances(placements: &Vec<PagePlacement>, count: usize) -> (orphans: Vec<usize>)
    ensures
        orphans@ == unplaced(placements@, count as nat),
{
    let mut orphans: Vec<usize> = Vec::new();
    let mut n: usize = 0;
    while n < count
        invariant
            n <= count,
            orphans@ == unplaced(placements@, n as nat),
        decreases count - n,
    {
        let mut placed = false;
        let mut i: usize = 0;
        while i < placements.len()
            invariant
                i <= placements@.len(),
                placed == exists|k: int|
                    0 <= k < i && (#[trigger] placements@[k]).instance == n,
            decreases placements@.len() - i,
        {
            if placements[i].instance == n {
                placed = true;
            }
            i = i + 1;
        }
        if !placed {
            orphans.push(n);
        }
        n = n + 1;
    }
    orphans
}

/// Computes where each instance of one spanning workspace group should live, given the
/// connected monitors (sorted by position).
///
/// - Instances are matched to their home monitor (strongest `HomeMatch` first, ties broken in
///   favor of the current host, then by the home's position). Each monitor takes at most one
///   instance; these form the first page.
/// - The remaining instances fill the free slots page by page, from left to right: first the
///   screens of disconnected monitors (by their home's layout size and position), then
///   instances without a home (extra screens created on further pages, in their current
///   order).
/// - Page numbers are contiguous.
pub fn assign_pages(instances: &[&Workspace], monitors: &[Monitor]) -> (placements: Vec<
    PagePlacement,
>)
    ensures
        placements@ == page_placements(
            borrowed_workspaces(instances@),
            monitors_view(monitors@),
        ),
{
    if monitors.len() == 0 {
        return Vec::new();
    }
    let ghost all = borrowed_workspaces(instances@);
    let ghost layout = monitors_view(monitors@);
    let instance_count = instances.len();
    let mut placements = match_home_monitors(instances, monitors);
    let ghost homes = placements@;
    let free_slots = unclaimed_monitors(&placements, monitors.len());
    let orphans = unplaced_instances(&placements, instances.len());
    proof {
        lemma_home_placements(all, layout);
        lemma_free_monitors(homes, layout.len());
        lemma_unplaced(homes, all.len());
        lemma_partition(homes, all.len(), layout.len());
    }
    place_orphans(&orphans, instances, monitors, &mut placements, &free_slots);
    proof {
        lemma_pages_are_compact(all, layout);
    }
    compact_pages(&mut placements);
    placements
}

/// Claim of the instance at a position to the monitor at another, with its key.
pub open spec fn claim_entry(
    instances: Seq<WorkspaceView>,
    monitors: Seq<MonitorView>,
    instance: int,
    monitor: int,
) -> Ranked<Claim> {
    Ranked {
        key: claim_key(instances[instance], instance, monitors, monitor),
        item: Claim { instance: instance as usize, monitor: monitor as usize },
    }
}

/// Whether an entry is the claim of one of the instances to one of the monitors.
pub open spec fn is_claim(
    instances: Seq<WorkspaceView>,
    monitors: Seq<MonitorView>,
    entry: Ranked<Claim>,
) -> bool {
    let (instance, monitor) = (entry.item.instance as int, entry.item.monitor as int);
    &&& instance < instances.len()
    &&& monitor < monitors.len()
    &&& claim_strength(instances[instance], monitors, monitor) is Some
    &&& entry == claim_entry(instances, monitors, instance, monitor)
}

/// The claims are exactly those of an instance to a monitor that matches its home.
pub proof fn lemma_claims(instances: Seq<WorkspaceView>, monitors: Seq<MonitorView>, count: nat)
    requires
        count <= instances.len() <= usize::MAX,
        monitors.len() <= usize::MAX,
    ensures
        forall|k: int|
            0 <= k < claims(instances, monitors, count).len() ==> is_claim(
                instances,
                monitors,
                #[trigger] claims(instances, monitors, count)[k],
            ),
        forall|i: int, m: int|
            0 <= i < count && 0 <= m < monitors.len() && claim_strength(
                instances[i],
                monitors,
                m,
            ) is Some ==> claims(instances, monitors, count).contains(
                #[trigger] claim_entry(instances, monitors, i, m),
            ),
    decreases count,
{
    if count > 0 {
        let i = count - 1;
        let rest = claims(instances, monitors, i as nat);
        let own = claims_of(instances[i], i, monitors, monitors.len());
        lemma_claims(instances, monitors, i as nat);
        lemma_claims_of(instances, i, monitors, monitors.len());
        let all = claims(instances, monitors, count);
        assert(all == rest + own);
        assert forall|j: int, m: int|
            0 <= j < count && 0 <= m < monitors.len() && claim_strength(
                instances[j],
                monitors,
                m,
            ) is Some implies all.contains(#[trigger] claim_entry(instances, monitors, j, m)) by {
            let entry = claim_entry(instances, monitors, j, m);
            if j < i {
                let k = choose|k: int| 0 <= k < rest.len() && rest[k] == entry;
                assert(all[k] == entry);
            } else {
                let k = choose|k: int| 0 <= k < own.len() && own[k] == entry;
                assert(all[rest.len() + k] == entry);
            }
        }
    }
}

pub proof fn lemma_claims_of(
    instances: Seq<WorkspaceView>,
    at: int,
    monitors: Seq<MonitorView>,
    count: nat,
)
    requires
        0 <= at < instances.len() <= usize::MAX,
        count <= monitors.len() <= usize::MAX,
    ensures
        forall|k: int|
            0 <= k < claims_of(instances[at], at, monitors, count).len() ==> is_claim(
                instances,
                monitors,
                #[trigger] claims_of(instances[at], at, monitors, count)[k],
            ),
        forall|m: int|
            0 <= m < count && claim_strength(instances[at], monitors, m) is Some ==> claims_of(
                instances[at],
                at,
                monitors,
                count,
            ).contains(#[trigger] claim_entry(instances, monitors, at, m)),
    decreases count,
{
    if count > 0 {
        let last = count - 1;
        lemma_claims_of(instances, at, monitors, last as nat);
        let rest = claims_of(instances[at], at, monitors, last as nat);
        let all = claims_of(instances[at], at, monitors, count);
        assert forall|m: int|
            0 <= m < count && claim_strength(
                instances[at],
                monitors,
                m,
            ) is Some implies all.contains(#[trigger] claim_entry(instances, monitors, at, m)) by {
            let entry = claim_entry(instances, monitors, at, m);
            if m < last {
                let k = choose|k: int| 0 <= k < rest.len() && rest[k] == entry;
                assert(all[k] == entry);
            } else {
                assert(all[rest.len() as int] == entry);
            }
        }
        assert forall|k: int| 0 <= k < all.len() implies is_claim(
            instances,
            monitors,
            #[trigger] all[k],
        ) by {
            if k < rest.len() {
                assert(all[k] == rest[k]);
            }
        }
    }
}

/// The claims in the order in which they are granted are still exactly the claims.
pub proof fn lemma_claim_order(instances: Seq<WorkspaceView>, monitors: Seq<MonitorView>)
    requires
        instances.len() <= usize::MAX,
        monitors.len() <= usize::MAX,
    ensures
        forall|k: int|
            0 <= k < claim_order(instances, monitors).len() ==> is_claim(
                instances,
                monitors,
                #[trigger] claim_order(instances, monitors)[k],
            ),
        forall|i: int, m: int|
            0 <= i < instances.len() && 0 <= m < monitors.len() && claim_strength(
                instances[i],
                monitors,
                m,
            ) is Some ==> claim_order(instances, monitors).contains(
                #[trigger] claim_entry(instances, monitors, i, m),
            ),
        crate::stable_sort::is_sorted(claim_order(instances, monitors)),
{
    let unsorted = claims(instances, monitors, instances.len());
    let order = claim_order(instances, monitors);
    lemma_claims(instances, monitors, instances.len());
    crate::stable_sort::lemma_sorting_keeps(unsorted);
    crate::stable_sort::law_sorting_orders_and_keeps(unsorted);
    assert forall|k: int| 0 <= k < order.len() implies is_claim(
        instances,
        monitors,
        #[trigger] order[k],
    ) by {
        let j = choose|j: int| 0 <= j < unsorted.len() && unsorted[j] == order[k];
        assert(is_claim(instances, monitors, unsorted[j]));
    }
    assert forall|i: int, m: int|
        0 <= i < instances.len() && 0 <= m < monitors.len() && claim_strength(
            instances[i],
            monitors,
            m,
        ) is Some implies order.contains(#[trigger] claim_entry(instances, monitors, i, m)) by {
        let entry = claim_entry(instances, monitors, i, m);
        let j = choose|j: int| 0 <= j < unsorted.len() && unsorted[j] == entry;
        assert(order.contains(unsorted[j]));
    }
}

/// The used pages are distinct, and exactly the pages of the placements.
pub proof fn lemma_used_pages(placements: Seq<PagePlacement>, count: nat)
    requires
        count <= placements.len(),
    ensures
        used_pages(placements, count).no_duplicates(),
        forall|k: int|
            0 <= k < count ==> used_pages(placements, count).contains(
                (#[trigger] placements[k]).page,
            ),
        forall|p: usize| #[trigger]
            used_pages(placements, count).contains(p) ==> exists|k: int|
                0 <= k < count && (#[trigger] placements[k]).page == p,
    decreases count,
{
    if count > 0 {
        let rest = used_pages(placements, (count - 1) as nat);
        let all = used_pages(placements, count);
        let page = placements[count - 1].page;
        lemma_used_pages(placements, (count - 1) as nat);
        assert forall|k: int| 0 <= k < count implies all.contains(
            (#[trigger] placements[k]).page,
        ) by {
            if k < count - 1 {
                let j = choose|j: int| 0 <= j < rest.len() && rest[j] == placements[k].page;
                assert(all[j] == placements[k].page);
            } else if !rest.contains(page) {
                assert(all[rest.len() as int] == page);
            }
        }
        assert forall|p: usize| #[trigger] all.contains(p) implies exists|k: int|
            0 <= k < count && (#[trigger] placements[k]).page == p by {
            let j = choose|j: int| 0 <= j < all.len() && all[j] == p;
            if j < rest.len() {
                assert(rest.contains(rest[j]));
                let k = choose|k: int|
                    0 <= k < count - 1 && (#[trigger] placements[k]).page == p;
                assert(placements[k].page == p);
            } else {
                assert(placements[count - 1].page == p);
            }
        }
    }
}

/// The pages before one of the pages leave out at least that page.
pub proof fn lemma_pages_before(pages: Seq<usize>, page: usize, count: nat, at: int)
    requires
        count <= pages.len(),
        0 <= at < count ==> pages[at] == page,
    ensures
        pages_before(pages, page, count).len() <= count,
        0 <= at < count ==> pages_before(pages, page, count).len() < count,
    decreases count,
{
    if count > 0 {
        lemma_pages_before(pages, page, (count - 1) as nat, at);
    }
}

/// The pages before a page are distinct if the pages are, and exactly those that are smaller.
pub proof fn lemma_pages_before_exact(pages: Seq<usize>, page: usize, count: nat)
    requires
        count <= pages.len(),
        pages.no_duplicates(),
    ensures
        pages_before(pages, page, count).no_duplicates(),
        forall|p: usize|
            #[trigger] pages_before(pages, page, count).contains(p) <==> p < page
                && pages.take(count as int).contains(p),
    decreases count,
{
    let now = pages_before(pages, page, count);
    if count > 0 {
        let rest = pages_before(pages, page, (count - 1) as nat);
        lemma_pages_before_exact(pages, page, (count - 1) as nat);
        let last = pages[count - 1];
        assert(pages.take(count as int) =~= pages.take(count - 1).push(last));
        assert(!pages.take(count - 1).contains(last));
        assert forall|i: int| 0 <= i < rest.len() implies (#[trigger] rest[i]) != last by {
            assert(rest.contains(rest[i]));
        }
        assert(now.no_duplicates());
        assert forall|p: usize|
            #[trigger] now.contains(p) <==> p < page && pages.take(count as int).contains(p) by {
            lemma_push_contains(pages.take(count - 1), last, p);
            lemma_push_contains(rest, last, p);
        }
    }
}

pub proof fn lemma_push_contains(items: Seq<usize>, last: usize, item: usize)
    ensures
        items.push(last).contains(item) <==> items.contains(item) || item == last,
{
    let pushed = items.push(last);
    if items.contains(item) {
        let j = choose|j: int| 0 <= j < items.len() && items[j] == item;
        assert(pushed[j] == item);
    }
    if item == last {
        assert(pushed[items.len() as int] == item);
    }
    if pushed.contains(item) && item != last {
        let j = choose|j: int| 0 <= j < pushed.len() && pushed[j] == item;
        assert(items[j] == item);
    }
}

/// Distinct numbers that are exactly the numbers below a bound are as many as the bound.
pub proof fn lemma_covers(items: Seq<usize>, bound: nat)
    requires
        items.no_duplicates(),
        forall|k: int| 0 <= k < items.len() ==> (#[trigger] items[k]) < bound,
        forall|x: usize| x < bound ==> #[trigger] items.contains(x),
        bound <= usize::MAX + 1,
    ensures
        items.len() == bound,
    decreases bound,
{
    if bound == 0 {
        if items.len() > 0 {
            assert(items[0] < bound);
        }
    } else {
        let top = (bound - 1) as usize;
        assert(items.contains(top));
        let at = choose|at: int| 0 <= at < items.len() && items[at] == top;
        let rest = items.remove(at);
        assert forall|k: int| 0 <= k < rest.len() implies (#[trigger] rest[k]) < bound - 1 by {
            if k < at {
                assert(rest[k] == items[k]);
            } else {
                assert(rest[k] == items[k + 1]);
            }
        }
        assert forall|x: usize| x < bound - 1 implies #[trigger] rest.contains(x) by {
            assert(items.contains(x));
            let j = choose|j: int| 0 <= j < items.len() && items[j] == x;
            if j < at {
                assert(rest[j] == x);
            } else {
                assert(rest[j - 1] == x);
            }
        }
        assert forall|i: int, j: int| 0 <= i < rest.len() && 0 <= j < rest.len() && i != j implies
            rest[i] != rest[j] by {
            let i2 = if i < at { i } else { i + 1 };
            let j2 = if j < at { j } else { j + 1 };
            assert(rest[i] == items[i2] && rest[j] == items[j2]);
        }
        lemma_covers(rest, (bound - 1) as nat);
    }
}

/// Whether the used pages are contiguous, starting at 1.
pub open spec fn pages_are_contiguous(placements: Seq<PagePlacement>) -> bool {
    forall|k: int|
        0 <= k < placements.len() ==> (#[trigger] placements[k]).page >= 1 && (placements[k].page
            > 1 ==> exists|j: int|
            0 <= j < placements.len() && (#[trigger] placements[j]).page == placements[k].page - 1)
}

pub proof fn lemma_contiguous_below(placements: Seq<PagePlacement>, k: int, page: int)
    requires
        pages_are_contiguous(placements),
        0 <= k < placements.len(),
        1 <= page <= placements[k].page,
    ensures
        exists|j: int| 0 <= j < placements.len() && (#[trigger] placements[j]).page == page,
    decreases placements[k].page - page,
{
    if page < placements[k].page {
        let j = choose|j: int|
            0 <= j < placements.len() && (#[trigger] placements[j]).page == placements[k].page - 1;
        lemma_contiguous_below(placements, j, page);
    }
}

/// Contiguous pages aren't renumbered.
pub proof fn lemma_contiguous_pages_are_kept(placements: Seq<PagePlacement>)
    requires
        pages_are_contiguous(placements),
    ensures
        compacted(placements) == placements,
{
    let pages = used_pages(placements, placements.len());
    lemma_used_pages(placements, placements.len());
    assert forall|k: int| 0 <= k < placements.len() implies compacted_page(
        pages,
        (#[trigger] placements[k]).page,
    ) == placements[k].page by {
        let page = placements[k].page;
        let before = pages_before(pages, page, pages.len());
        lemma_pages_before_exact(pages, page, pages.len());
        assert(pages.take(pages.len() as int) =~= pages);
        let numbers = before.push(0usize);
        assert forall|i: int| 0 <= i < before.len() implies 1 <= (#[trigger] before[i]) < page by {
            assert(before.contains(before[i]));
            assert(pages.contains(before[i]));
            let j = choose|j: int|
                0 <= j < placements.len() && (#[trigger] placements[j]).page == before[i];
            assert(placements[j].page >= 1);
        }
        assert forall|x: usize| x < page implies #[trigger] numbers.contains(x) by {
            lemma_push_contains(before, 0usize, x);
            if x >= 1 {
                lemma_contiguous_below(placements, k, x as int);
                let j = choose|j: int|
                    0 <= j < placements.len() && (#[trigger] placements[j]).page == x;
                assert(pages.contains(placements[j].page));
                assert(before.contains(x));
            }
        }
        assert forall|i: int| 0 <= i < numbers.len() implies (#[trigger] numbers[i]) < page by {
            if i < before.len() {
                assert(numbers[i] == before[i]);
            }
        }
        assert(numbers.no_duplicates()) by {
            assert forall|i: int, j: int|
                0 <= i < numbers.len() && 0 <= j < numbers.len() && i != j implies numbers[i]
                != numbers[j] by {
                if i < before.len() {
                    assert(numbers[i] == before[i]);
                }
                if j < before.len() {
                    assert(numbers[j] == before[j]);
                }
            }
        }
        lemma_covers(numbers, page as nat);
    }
    assert(compacted(placements) =~= placements);
}

/// The granted placements are distinct in instance and monitor, and each is one of the claims.
pub proof fn lemma_granted(
    instances: Seq<WorkspaceView>,
    claims: Seq<Ranked<Claim>>,
    count: nat,
)
    requires
        count <= claims.len(),
    ensures
        forall|k: int|
            0 <= k < granted(instances, claims, count).len() ==> exists|j: int|
                0 <= j < count && #[trigger] granted(instances, claims, count)[k]
                    == home_placement(instances, (#[trigger] claims[j]).item),
        forall|k: int, l: int|
            0 <= k < l < granted(instances, claims, count).len() ==> (#[trigger] granted(
                instances,
                claims,
                count,
            )[k]).instance != (#[trigger] granted(instances, claims, count)[l]).instance,
        forall|k: int, l: int|
            0 <= k < l < granted(instances, claims, count).len() ==> (#[trigger] granted(
                instances,
                claims,
                count,
            )[k]).monitor != (#[trigger] granted(instances, claims, count)[l]).monitor,
    decreases count,
{
    if count > 0 {
        lemma_granted(instances, claims, (count - 1) as nat);
        let rest = granted(instances, claims, (count - 1) as nat);
        let now = granted(instances, claims, count);
        let claim = claims[count - 1].item;
        assert forall|k: int| 0 <= k < now.len() implies exists|j: int|
            0 <= j < count && #[trigger] now[k] == home_placement(
                instances,
                (#[trigger] claims[j]).item,
            ) by {
            if k < rest.len() {
                assert(now[k] == rest[k]);
                let j = choose|j: int|
                    0 <= j < count - 1 && rest[k] == home_placement(
                        instances,
                        (#[trigger] claims[j]).item,
                    );
                assert(now[k] == home_placement(instances, claims[j].item));
            } else {
                assert(now[k] == home_placement(instances, claims[count - 1].item));
            }
        }
        assert forall|k: int, l: int| 0 <= k < l < now.len() implies (#[trigger] now[k]).instance
            != (#[trigger] now[l]).instance && now[k].monitor != now[l].monitor by {
            assert(now[k] == rest[k]);
            if l < rest.len() {
                assert(now[l] == rest[l]);
            }
        }
    }
}

/// Whether placements are ones to a home monitor.
pub open spec fn is_home_placement(
    instances: Seq<WorkspaceView>,
    monitors: Seq<MonitorView>,
    placement: PagePlacement,
) -> bool {
    &&& placement.instance < instances.len()
    &&& placement.monitor < monitors.len()
    &&& claim_strength(
        instances[placement.instance as int],
        monitors,
        placement.monitor as int,
    ) is Some
    &&& placement.workspace == instances[placement.instance as int].id
    &&& placement.page == 1
    &&& placement.is_home
}

/// Whether no two placements have the same instance, and no two the same monitor.
pub open spec fn is_matching(placements: Seq<PagePlacement>) -> bool {
    &&& forall|k: int, l: int|
        0 <= k < l < placements.len() ==> (#[trigger] placements[k]).instance != (
        #[trigger] placements[l]).instance
    &&& forall|k: int, l: int|
        0 <= k < l < placements.len() ==> (#[trigger] placements[k]).monitor != (
        #[trigger] placements[l]).monitor
}

pub proof fn lemma_home_placements(instances: Seq<WorkspaceView>, monitors: Seq<MonitorView>)
    requires
        instances.len() <= usize::MAX,
        monitors.len() <= usize::MAX,
    ensures
        forall|k: int|
            0 <= k < home_placements(instances, monitors).len() ==> is_home_placement(
                instances,
                monitors,
                #[trigger] home_placements(instances, monitors)[k],
            ),
        is_matching(home_placements(instances, monitors)),
{
    let order = claim_order(instances, monitors);
    let homes = home_placements(instances, monitors);
    lemma_claim_order(instances, monitors);
    lemma_granted(instances, order, order.len());
    assert forall|k: int| 0 <= k < homes.len() implies is_home_placement(
        instances,
        monitors,
        #[trigger] homes[k],
    ) by {
        let j = choose|j: int|
            0 <= j < order.len() && homes[k] == home_placement(
                instances,
                (#[trigger] order[j]).item,
            );
        assert(is_claim(instances, monitors, order[j]));
    }
}

/// The free monitors are in ascending order, and exactly those without a placement.
pub proof fn lemma_free_monitors(placements: Seq<PagePlacement>, count: nat)
    requires
        count <= usize::MAX,
    ensures
        forall|k: int|
            0 <= k < free_monitors(placements, count).len() ==> (#[trigger] free_monitors(
                placements,
                count,
            )[k]) < count && !places_monitor(placements, free_monitors(placements, count)[k]),
        forall|k: int, l: int|
            0 <= k < l < free_monitors(placements, count).len() ==> (#[trigger] free_monitors(
                placements,
                count,
            )[k]) < (#[trigger] free_monitors(placements, count)[l]),
        forall|m: usize|
            m < count && !places_monitor(placements, m) ==> #[trigger] free_monitors(
                placements,
                count,
            ).contains(m),
        free_monitors(placements, count).len() <= count,
    decreases count,
{
    if count > 0 {
        let last = (count - 1) as usize;
        lemma_free_monitors(placements, last as nat);
        let rest = free_monitors(placements, last as nat);
        let now = free_monitors(placements, count);
        assert forall|m: usize| m < count && !places_monitor(placements, m) implies
            #[trigger] now.contains(m) by {
            lemma_push_contains(rest, last, m);
        }
        assert forall|k: int| 0 <= k < now.len() implies (#[trigger] now[k]) < count
            && !places_monitor(placements, now[k]) by {
            if k < rest.len() {
                assert(now[k] == rest[k]);
            }
        }
        assert forall|k: int, l: int| 0 <= k < l < now.len() implies (#[trigger] now[k]) < (
        #[trigger] now[l]) by {
            assert(now[k] == rest[k]);
            if l < rest.len() {
                assert(now[l] == rest[l]);
            }
        }
    }
}

/// The orphans are in ascending order, and exactly the instances without a placement.
pub proof fn lemma_unplaced(placements: Seq<PagePlacement>, count: nat)
    requires
        count <= usize::MAX,
    ensures
        forall|k: int|
            0 <= k < unplaced(placements, count).len() ==> (#[trigger] unplaced(
                placements,
                count,
            )[k]) < count && !places_instance(placements, unplaced(placements, count)[k]),
        forall|k: int, l: int|
            0 <= k < l < unplaced(placements, count).len() ==> (#[trigger] unplaced(
                placements,
                count,
            )[k]) < (#[trigger] unplaced(placements, count)[l]),
        forall|i: usize|
            i < count && !places_instance(placements, i) ==> #[trigger] unplaced(
                placements,
                count,
            ).contains(i),
        unplaced(placements, count).len() <= count,
    decreases count,
{
    if count > 0 {
        let last = (count - 1) as usize;
        lemma_unplaced(placements, last as nat);
        let rest = unplaced(placements, last as nat);
        let now = unplaced(placements, count);
        assert forall|m: usize| m < count && !places_instance(placements, m) implies
            #[trigger] now.contains(m) by {
            lemma_push_contains(rest, last, m);
        }
        assert forall|k: int| 0 <= k < now.len() implies (#[trigger] now[k]) < count
            && !places_instance(placements, now[k]) by {
            if k < rest.len() {
                assert(now[k] == rest[k]);
            }
        }
        assert forall|k: int, l: int| 0 <= k < l < now.len() implies (#[trigger] now[k]) < (
        #[trigger] now[l]) by {
            assert(now[k] == rest[k]);
            if l < rest.len() {
                assert(now[l] == rest[l]);
            }
        }
    }
}

/// Instances and monitors either have a placement or are left over.
pub proof fn lemma_partition(placements: Seq<PagePlacement>, instance_count: nat, monitor_count: nat)
    requires
        instance_count <= usize::MAX,
        monitor_count <= usize::MAX,
        is_matching(placements),
        forall|k: int|
            0 <= k < placements.len() ==> (#[trigger] placements[k]).instance < instance_count
                && placements[k].monitor < monitor_count,
    ensures
        unplaced(placements, instance_count).len() + placements.len() == instance_count,
        free_monitors(placements, monitor_count).len() + placements.len() == monitor_count,
{
    lemma_free_monitors(placements, monitor_count);
    lemma_unplaced(placements, instance_count);
    let free = free_monitors(placements, monitor_count);
    let orphans = unplaced(placements, instance_count);
    let claimed = Seq::new(placements.len(), |k: int| placements[k].monitor);
    let placed = Seq::new(placements.len(), |k: int| placements[k].instance);
    let monitors = free + claimed;
    let instances = orphans + placed;
    assert forall|k: int| 0 <= k < monitors.len() implies (#[trigger] monitors[k])
        < monitor_count by {
        if k < free.len() {
            assert(monitors[k] == free[k]);
        } else {
            assert(monitors[k] == placements[k - free.len()].monitor);
        }
    }
    assert forall|x: usize| x < monitor_count implies #[trigger] monitors.contains(x) by {
        if places_monitor(placements, x) {
            let k = choose|k: int|
                0 <= k < placements.len() && (#[trigger] placements[k]).monitor == x;
            assert(monitors[free.len() + k] == x);
        } else {
            assert(free.contains(x));
            let k = choose|k: int| 0 <= k < free.len() && free[k] == x;
            assert(monitors[k] == x);
        }
    }
    assert forall|i: int, j: int| 0 <= i < j < monitors.len() implies monitors[i]
        != monitors[j] by {
        if j < free.len() {
            assert(monitors[i] == free[i] && monitors[j] == free[j]);
        } else if i < free.len() {
            assert(monitors[i] == free[i]);
            assert(monitors[j] == placements[j - free.len()].monitor);
        } else {
            assert(monitors[i] == placements[i - free.len()].monitor);
            assert(monitors[j] == placements[j - free.len()].monitor);
        }
    }
    lemma_covers(monitors, monitor_count);
    assert forall|k: int| 0 <= k < instances.len() implies (#[trigger] instances[k])
        < instance_count by {
        if k < orphans.len() {
            assert(instances[k] == orphans[k]);
        } else {
            assert(instances[k] == placements[k - orphans.len()].instance);
        }
    }
    assert forall|x: usize| x < instance_count implies #[trigger] instances.contains(x) by {
        if places_instance(placements, x) {
            let k = choose|k: int|
                0 <= k < placements.len() && (#[trigger] placements[k]).instance == x;
            assert(instances[orphans.len() + k] == x);
        } else {
            assert(orphans.contains(x));
            let k = choose|k: int| 0 <= k < orphans.len() && orphans[k] == x;
            assert(instances[k] == x);
        }
    }
    assert forall|i: int, j: int| 0 <= i < j < instances.len() implies instances[i]
        != instances[j] by {
        if j < orphans.len() {
            assert(instances[i] == orphans[i] && instances[j] == orphans[j]);
        } else if i < orphans.len() {
            assert(instances[i] == orphans[i]);
            assert(instances[j] == placements[j - orphans.len()].instance);
        } else {
            assert(instances[i] == placements[i - orphans.len()].instance);
            assert(instances[j] == placements[j - orphans.len()].instance);
        }
    }
    lemma_covers(instances, instance_count);
}

/// The slot that comes before a slot of a further page in the same column.
pub proof fn lemma_slot_above(free: Seq<usize>, monitor_count: nat, place: int)
    requires
        monitor_count > 0,
        place >= free.len(),
    ensures
        0 <= orphan_slot(free, monitor_count, place).0 < monitor_count,
        orphan_slot(free, monitor_count, place).1 >= 2,
        orphan_slot(free, monitor_count, place).1 <= 2 + (place - free.len()),
        orphan_slot(free, monitor_count, place).1 > 2 ==> place - monitor_count >= free.len()
            && orphan_slot(free, monitor_count, place - monitor_count).1 == orphan_slot(
            free,
            monitor_count,
            place,
        ).1 - 1,
{
    let further = place - free.len();
    let m = monitor_count as int;
    vstd::arithmetic::div_mod::lemma_fundamental_div_mod(further, m);
    vstd::arithmetic::div_mod::lemma_mod_pos_bound(further, m);
    vstd::arithmetic::div_mod::lemma_div_pos_is_pos(further, m);
    vstd::arithmetic::div_mod::lemma_div_is_ordered_by_denominator(further, 1, m);
    if further / m > 0 {
        assert(further >= m) by {
            if further < m {
                vstd::arithmetic::div_mod::lemma_basic_div(further, m);
            }
        }
        vstd::arithmetic::div_mod::lemma_div_minus_one(further, m);
    }
}

/// Pages of the assigned placements are contiguous, so that none is renumbered.
pub proof fn lemma_pages_are_compact(instances: Seq<WorkspaceView>, monitors: Seq<MonitorView>)
    requires
        instances.len() <= usize::MAX,
        0 < monitors.len() <= usize::MAX,
    ensures
        pages_are_contiguous(page_placements(instances, monitors)),
        compacted(page_placements(instances, monitors)) == page_placements(instances, monitors),
{
    let homes = home_placements(instances, monitors);
    let orphans = unplaced(homes, instances.len());
    let free = free_monitors(homes, monitors.len());
    let packed = orphan_placements(instances, monitors, orphans, free);
    let all = page_placements(instances, monitors);
    lemma_home_placements(instances, monitors);
    lemma_partition(homes, instances.len(), monitors.len());
    crate::stable_sort::lemma_sorting_keeps(orphan_entries(instances, monitors, orphans));
    assert(packed.len() == orphans.len());
    assert forall|k: int| 0 <= k < all.len() implies (#[trigger] all[k]).page >= 1 && (all[k].page
        > 1 ==> exists|j: int|
        0 <= j < all.len() && (#[trigger] all[j]).page == all[k].page - 1) by {
        if k < homes.len() {
            assert(all[k] == homes[k]);
            assert(is_home_placement(instances, monitors, homes[k]));
        } else {
            let place = k - homes.len();
            assert(all[k] == packed[place]);
            if place >= free.len() {
                lemma_slot_above(free, monitors.len(), place);
                let page = orphan_slot(free, monitors.len(), place).1;
                assert(page <= usize::MAX);
                assert(all[k].page == page);
                if page > 2 {
                    let above = place - monitors.len();
                    lemma_slot_above(free, monitors.len(), above);
                    assert(packed[above].page == page - 1);
                    assert(all[homes.len() + above] == packed[above]);
                } else if homes.len() > 0 {
                    assert(all[0] == homes[0]);
                    assert(is_home_placement(instances, monitors, homes[0]));
                } else {
                    assert(packed[0].page == 1);
                    assert(all[homes.len() as int] == packed[0]);
                }
            }
        }
    }
    lemma_contiguous_pages_are_kept(all);
}

} // verus!
