//! How homes, hosts and pages decide which slot an instance is assigned.
use vstd::prelude::*;

use crate::monitor::MonitorView;
use crate::monitor_identity::{HomeMatch, MonitorIdentityView};
use crate::page_laws::{
    law_claims_yield_to_stronger_ones_only, law_every_instance_is_placed_once,
    law_homes_form_the_first_page, law_orphans_fill_slots_in_order, lemma_placements, yields_to,
};
use crate::page_placement::{
    free_monitors, home_placements, host_position, is_home_placement, lemma_free_monitors,
    lemma_home_placements, orphan_slot, page_placements, Claim,
};
use crate::page_stability::{distinct_monitors, lemma_monitor_position_exact};
use crate::wm_state::lemma_monitor_position;
use crate::workspace::WorkspaceView;

verus! {

/// A home is recognized by its device and bounds, by either of them, or by its position among
/// equally many monitors, in this order of preference. The bounds count for more than the device.
pub proof fn law_home_is_recognized_by_device_bounds_or_position(
    identity: MonitorIdentityView,
    layout: Seq<MonitorView>,
    index: int,
)
    requires
        0 <= index < layout.len(),
    ensures
        ({
            let is_device = identity.device_path is Some && layout[index].device_path is Some
                && identity.device_path->0 == layout[index].device_path->0;
            let has_bounds = identity.bounds.left == layout[index].bounds.left
                && identity.bounds.top == layout[index].bounds.top && identity.bounds.right
                == layout[index].bounds.right && identity.bounds.bottom
                == layout[index].bounds.bottom;
            let has_position = identity.index == index && identity.monitor_count == layout.len();
            match identity.matches(layout, index) {
                Some(HomeMatch::DeviceAndBounds) => is_device && has_bounds,
                Some(HomeMatch::Bounds) => has_bounds && !is_device,
                Some(HomeMatch::Device) => is_device && !has_bounds,
                Some(HomeMatch::Index) => has_position && !is_device && !has_bounds,
                None => !has_position && !is_device && !has_bounds,
            }
        }),
        HomeMatch::Index.spec_strength() < HomeMatch::Device.spec_strength(),
        HomeMatch::Device.spec_strength() < HomeMatch::Bounds.spec_strength(),
        HomeMatch::Bounds.spec_strength() < HomeMatch::DeviceAndBounds.spec_strength(),
{
}

/// What is recorded of a monitor: its device and bounds, and its position among how many.
pub proof fn law_identity_is_that_of_the_monitor(layout: Seq<MonitorView>, index: int)
    requires
        0 <= index < layout.len() <= usize::MAX,
    ensures
        ({
            let identity = MonitorIdentityView::of(layout, index);
            &&& identity.device_path == layout[index].device_path
            &&& identity.bounds == layout[index].bounds
            &&& identity.index == index
            &&& identity.monitor_count == layout.len()
        }),
{
}

/// An instance whose home is connected gets it, unless its monitor goes to another instance, or it
/// gets another monitor itself, by a claim that is better. A claim is better if it recognizes the
/// home by more, or else if the instance is on the monitor already, or else if its home was
/// further to the left.
pub proof fn law_better_claims_win(
    instances: Seq<WorkspaceView>,
    monitors: Seq<MonitorView>,
    i: int,
    m: int,
) -> (k: int)
    requires
        instances.len() <= usize::MAX,
        0 < monitors.len() <= usize::MAX,
        distinct_monitors(monitors),
        0 <= i < instances.len(),
        0 <= m < monitors.len(),
        instances[i].home is Some,
        instances[i].home->0.matches(monitors, m) is Some,
    ensures
        0 <= k < instances.len(),
        ({
            let placement = page_placements(instances, monitors)[k];
            let winner = instances[placement.instance as int];
            let n = placement.monitor as int;
            let rank = |strength: HomeMatch| -> int {
                match strength {
                    HomeMatch::Index => 0,
                    HomeMatch::Device => 1,
                    HomeMatch::Bounds => 2,
                    HomeMatch::DeviceAndBounds => 3,
                }
            };
            let own = rank(instances[i].home->0.matches(monitors, m)->0);
            let other = rank(winner.home->0.matches(monitors, n)->0);
            let is_here = instances[i].monitor == Some(monitors[m].id);
            let is_there = winner.monitor == Some(monitors[n].id);
            &&& placement.is_home
            &&& placement.instance == i || n == m
            &&& winner.home is Some
            &&& winner.home->0.matches(monitors, n) is Some
            &&& other > own || other == own && (is_there && !is_here || is_there == is_here && (
            winner.home->0.index < instances[i].home->0.index || winner.home->0.index
                == instances[i].home->0.index && placement.instance <= i))
        }),
{
    let all = page_placements(instances, monitors);
    let claim = Claim { instance: i as usize, monitor: m as usize };
    law_claims_yield_to_stronger_ones_only(instances, monitors, i as usize, m as usize);
    let k = choose|k: int|
        0 <= k < instances.len() && yields_to(instances, monitors, claim, #[trigger] all[k]);
    law_homes_form_the_first_page(instances, monitors, k);
    law_every_instance_is_placed_once(instances, monitors);
    let j = all[k].instance as int;
    let n = all[k].monitor as int;
    lemma_host(instances[i], monitors, m);
    lemma_host(instances[j], monitors, n);
    k
}

/// The position of an instance's host.
proof fn lemma_host(instance: WorkspaceView, monitors: Seq<MonitorView>, m: int)
    requires
        distinct_monitors(monitors),
        0 <= m < monitors.len(),
    ensures
        host_position(instance, monitors) == Some(m) <==> instance.monitor == Some(monitors[m].id),
{
    lemma_monitor_position_exact(monitors, m, 0);
    if let Some(id) = instance.monitor {
        lemma_monitor_position(monitors, id, 0);
    }
}

/// Instances that don't get their home are put in order: those of larger layouts come first, then
/// those whose home was further to the left, then those without a home. Among instances that
/// agree in this, those on earlier pages come first, and then those hosted further to the left.
pub proof fn law_orphans_are_ordered_by_home_page_and_host(
    instances: Seq<WorkspaceView>,
    monitors: Seq<MonitorView>,
    k: int,
    l: int,
    m: int,
    n: int,
)
    requires
        instances.len() <= usize::MAX,
        0 < monitors.len() <= usize::MAX,
        distinct_monitors(monitors),
        0 <= k < instances.len(),
        0 <= l < instances.len(),
        !page_placements(instances, monitors)[k].is_home,
        !page_placements(instances, monitors)[l].is_home,
        0 <= m < monitors.len(),
        0 <= n < monitors.len(),
    ensures
        ({
            let (p, q) = (
                page_placements(instances, monitors)[k],
                page_placements(instances, monitors)[l],
            );
            let (a, b) = (instances[p.instance as int], instances[q.instance as int]);
            let is_before = p.page < q.page || p.page == q.page && p.monitor < q.monitor;
            let is_alike = match (a.home, b.home) {
                (Some(x), Some(y)) => x.monitor_count == y.monitor_count && x.index == y.index,
                (None, None) => true,
                _ => false,
            };
            &&& a.home is Some && b.home is Some && a.home->0.monitor_count
                > b.home->0.monitor_count ==> is_before
            &&& a.home is Some && b.home is Some && a.home->0.monitor_count
                == b.home->0.monitor_count && a.home->0.index < b.home->0.index ==> is_before
            &&& a.home is Some && a.home->0.monitor_count > 0 && b.home is None ==> is_before
            &&& is_alike && a.config.spanning_page < b.config.spanning_page ==> is_before
            &&& is_alike && a.config.spanning_page == b.config.spanning_page && a.monitor == Some(
                monitors[m].id,
            ) && b.monitor == Some(monitors[n].id) && m < n ==> is_before
        }),
{
    let all = page_placements(instances, monitors);
    law_every_instance_is_placed_once(instances, monitors);
    let (i, j) = (all[k].instance as int, all[l].instance as int);
    lemma_host(instances[i], monitors, m);
    lemma_host(instances[j], monitors, n);
    let x = crate::page_placement::orphan_key(instances[i], monitors);
    let y = crate::page_placement::orphan_key(instances[j], monitors);
    if !y.at_most(x) {
        law_orphans_fill_slots_in_order(instances, monitors, k, l);
    }
}

/// Slots are filled from the left: an instance without its home is put on a monitor only if the
/// page has one on every monitor to the left.
pub proof fn law_slots_are_filled_from_the_left(
    instances: Seq<WorkspaceView>,
    monitors: Seq<MonitorView>,
    k: int,
    m: int,
)
    requires
        instances.len() <= usize::MAX,
        0 < monitors.len() <= usize::MAX,
        0 <= k < instances.len(),
        !page_placements(instances, monitors)[k].is_home,
        0 <= m < page_placements(instances, monitors)[k].monitor,
    ensures
        exists|l: int|
            0 <= l < instances.len() && (#[trigger] page_placements(instances, monitors)[l]).monitor
                == m && page_placements(instances, monitors)[l].page == page_placements(
                instances,
                monitors,
            )[k].page,
{
    let all = page_placements(instances, monitors);
    let homes = home_placements(instances, monitors);
    let free = free_monitors(homes, monitors.len());
    let count = monitors.len() as int;
    lemma_placements(instances, monitors);
    lemma_home_placements(instances, monitors);
    lemma_free_monitors(homes, monitors.len());
    law_every_instance_is_placed_once(instances, monitors);
    if k < homes.len() {
        assert(all[k] == homes[k]);
        assert(is_home_placement(instances, monitors, homes[k]));
    }
    let place = k - homes.len();
    if place < free.len() {
        assert(all[k].page == 1 && free[place] == all[k].monitor);
        crate::first_page_placement::lemma_filled_before(instances, monitors, k, m);
        let l = choose|l: int|
            0 <= l < all.len() && (#[trigger] all[l]).monitor == m && all[l].page == 1;
        assert(all[l].monitor == m);
    } else {
        let further = place - free.len();
        let d = all[k].monitor - m;
        vstd::arithmetic::div_mod::lemma_fundamental_div_mod(further, count);
        let page = further / count;
        let spot = further % count;
        assert(all[k].monitor == spot && all[k].page == 2 + page);
        assert(further - d == page * count + m) by (nonlinear_arith)
            requires
                further == count * page + spot,
                d == spot - m,
        ;
        vstd::arithmetic::div_mod::lemma_fundamental_div_mod_converse(
            further - d,
            count,
            page,
            m,
        );
        assert(further - d >= 0) by (nonlinear_arith)
            requires
                further - d == page * count + m,
                page >= 0,
                count > 0,
                m >= 0,
        ;
        let l = k - d;
        assert(l - homes.len() >= free.len());
        assert(orphan_slot(free, monitors.len(), l - homes.len()) == (m, 2 + page));
        assert(all[l].monitor == m && all[l].page == 2 + page);
    }
}

} // verus!
