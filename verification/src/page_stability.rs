//! Assigning pages again changes nothing.
use vstd::prelude::*;

use crate::monitor::MonitorView;
use crate::monitor_identity::MonitorIdentityView;
use crate::page_laws::{
    law_claims_yield_to_stronger_ones_only, law_every_instance_is_placed_once, lemma_orphan_order,
    lemma_orphan_slots_ascend, lemma_placements, orphan_order, yields_to,
};
use crate::page_placement::{
    claim_key, claim_strength, free_monitors, home_placements, is_home_placement,
    lemma_home_placements, orphan_key, page_placements, places_instance, places_monitor, Claim,
    PagePlacement,
};
use crate::stable_sort::SortKey;
use crate::wm_state::monitor_position;
use crate::workspace::WorkspaceView;

verus! {

/// Whether no two monitors have the same identifier.
pub open spec fn distinct_monitors(monitors: Seq<MonitorView>) -> bool {
    forall|m: int, n: int|
        0 <= m < n < monitors.len() ==> (#[trigger] monitors[m]).id != (#[trigger] monitors[n]).id
}

/// Placement of the instance at the given position.
pub open spec fn placement_of(placements: Seq<PagePlacement>, instance: int) -> PagePlacement {
    placements[choose|k: int|
        0 <= k < placements.len() && (#[trigger] placements[k]).instance == instance]
}

/// An instance after its placement was applied: on the monitor and page of the placement, and
/// with its home refreshed if it is at home.
pub open spec fn is_applied(
    instance: WorkspaceView,
    monitors: Seq<MonitorView>,
    placement: PagePlacement,
    applied: WorkspaceView,
) -> bool {
    &&& applied.monitor == Some(monitors[placement.monitor as int].id)
    &&& applied.config.spanning_page == placement.page
    &&& applied.home == if placement.is_home {
        Some(MonitorIdentityView::of(monitors, placement.monitor as int))
    } else {
        instance.home
    }
}

/// Whether `later` holds the instances after their placements were applied. They may be listed
/// in another order: `origin` gives the former position of each.
pub open spec fn are_applied(
    instances: Seq<WorkspaceView>,
    monitors: Seq<MonitorView>,
    later: Seq<WorkspaceView>,
    origin: Seq<int>,
) -> bool {
    &&& later.len() == instances.len()
    &&& origin.len() == instances.len()
    &&& origin.no_duplicates()
    &&& forall|j: int| 0 <= j < origin.len() ==> 0 <= #[trigger] origin[j] < instances.len()
    &&& forall|j: int|
        0 <= j < later.len() ==> is_applied(
            instances[origin[j]],
            monitors,
            placement_of(page_placements(instances, monitors), origin[j]),
            #[trigger] later[j],
        )
}

/// Whether no instance that is hosted by the home monitor of another instance has a better
/// claim to the monitor than the other one has.
pub open spec fn homes_are_undisputed(
    instances: Seq<WorkspaceView>,
    monitors: Seq<MonitorView>,
    later: Seq<WorkspaceView>,
    origin: Seq<int>,
) -> bool {
    let placements = page_placements(instances, monitors);
    forall|i: int, j: int|
        0 <= i < later.len() && 0 <= j < later.len() && i != j ==> {
            let host = #[trigger] placement_of(placements, origin[i]);
            let guest = #[trigger] placement_of(placements, origin[j]);
            let monitor = host.monitor as int;
            host.is_home && !guest.is_home && guest.monitor == monitor && claim_strength(
                later[j],
                monitors,
                monitor,
            ) is Some ==> claim_key(later[i], i, monitors, monitor).at_most(
                claim_key(later[j], j, monitors, monitor),
            )
        }
}

pub proof fn lemma_monitor_position_exact(monitors: Seq<MonitorView>, at: int, from: int)
    requires
        distinct_monitors(monitors),
        0 <= from <= at < monitors.len(),
    ensures
        monitor_position(monitors, monitors[at].id, from) == Some(at),
    decreases at - from,
{
    if from < at {
        lemma_monitor_position_exact(monitors, at, from + 1);
    }
}

pub proof fn lemma_placement_of(instances: Seq<WorkspaceView>, monitors: Seq<MonitorView>, k: int)
    requires
        instances.len() <= usize::MAX,
        0 < monitors.len() <= usize::MAX,
        0 <= k < instances.len(),
    ensures
        page_placements(instances, monitors).len() == instances.len(),
        0 <= page_placements(instances, monitors)[k].instance < instances.len(),
        placement_of(
            page_placements(instances, monitors),
            page_placements(instances, monitors)[k].instance as int,
        ) == page_placements(instances, monitors)[k],
{
    let all = page_placements(instances, monitors);
    law_every_instance_is_placed_once(instances, monitors);
    let i = all[k].instance as int;
    let l = choose|l: int| 0 <= l < all.len() && (#[trigger] all[l]).instance == i;
    assert(all[k].instance == i);
    assert(0 <= l < all.len() && all[l].instance == i);
    if l < k {
        assert(all[l].instance != all[k].instance);
    } else if k < l {
        assert(all[k].instance != all[l].instance);
    }
}

/// The placement of an instance is among the placements. It is among the home placements if and
/// only if it is one to the home monitor.
pub proof fn lemma_placement_exists(
    instances: Seq<WorkspaceView>,
    monitors: Seq<MonitorView>,
    instance: int,
) -> (k: int)
    requires
        instances.len() <= usize::MAX,
        0 < monitors.len() <= usize::MAX,
        0 <= instance < instances.len(),
    ensures
        0 <= k < instances.len() == page_placements(instances, monitors).len(),
        placement_of(page_placements(instances, monitors), instance) == page_placements(
            instances,
            monitors,
        )[k],
        page_placements(instances, monitors)[k].instance == instance,
        page_placements(instances, monitors)[k].monitor < monitors.len(),
        page_placements(instances, monitors)[k].is_home <==> k < home_placements(
            instances,
            monitors,
        ).len(),
        page_placements(instances, monitors)[k].is_home <==> places_instance(
            home_placements(instances, monitors),
            instance as usize,
        ),
        page_placements(instances, monitors)[k].is_home ==> is_home_placement(
            instances,
            monitors,
            page_placements(instances, monitors)[k],
        ),
{
    let all = page_placements(instances, monitors);
    let homes = home_placements(instances, monitors);
    law_every_instance_is_placed_once(instances, monitors);
    lemma_placements(instances, monitors);
    lemma_home_placements(instances, monitors);
    lemma_orphan_order(instances, monitors);
    assert(places_instance(all, instance as usize));
    let k = choose|k: int| 0 <= k < all.len() && (#[trigger] all[k]).instance == instance;
    lemma_placement_of(instances, monitors, k);
    if k < homes.len() {
        assert(all[k] == homes[k]);
        assert(is_home_placement(instances, monitors, homes[k]));
        assert(homes[k].instance == instance as usize);
    } else {
        assert(all[k].instance == orphan_order(instances, monitors)[k - homes.len()].item);
    }
    k
}

/// A claim that ranks above all claims that it excludes is granted.
pub proof fn lemma_best_claim_is_granted(
    instances: Seq<WorkspaceView>,
    monitors: Seq<MonitorView>,
    instance: int,
    monitor: int,
)
    requires
        instances.len() <= usize::MAX,
        0 < monitors.len() <= usize::MAX,
        0 <= instance < instances.len(),
        0 <= monitor < monitors.len(),
        claim_strength(instances[instance], monitors, monitor) is Some,
        forall|i: int, m: int|
            0 <= i < instances.len() && 0 <= m < monitors.len() && (i == instance) != (m == monitor)
                && #[trigger] claim_strength(instances[i], monitors, m) is Some ==> !claim_key(
                instances[i],
                i,
                monitors,
                m,
            ).at_most(claim_key(instances[instance], instance, monitors, monitor)),
    ensures
        placement_of(page_placements(instances, monitors), instance).is_home,
        placement_of(page_placements(instances, monitors), instance).monitor == monitor,
{
    let all = page_placements(instances, monitors);
    let claim = Claim { instance: instance as usize, monitor: monitor as usize };
    law_claims_yield_to_stronger_ones_only(
        instances,
        monitors,
        instance as usize,
        monitor as usize,
    );
    let k = choose|k: int|
        0 <= k < instances.len() && yields_to(instances, monitors, claim, #[trigger] all[k]);
    lemma_placement_of(instances, monitors, k);
    let found = lemma_placement_exists(instances, monitors, all[k].instance as int);
    assert(is_home_placement(instances, monitors, all[k]));
    let (i, m) = (all[k].instance as int, all[k].monitor as int);
    assert(claim_strength(instances[i], monitors, m) is Some);
    assert((i == instance) == (m == monitor));
}

/// Strength with which a monitor matches its own identity. No identity matches a monitor more
/// strongly.
pub proof fn lemma_own_strength(monitors: Seq<MonitorView>, monitor: int, home: MonitorIdentityView)
    requires
        0 <= monitor < monitors.len() <= usize::MAX,
    ensures
        MonitorIdentityView::of(monitors, monitor).matches(monitors, monitor) is Some,
        home.matches(monitors, monitor) matches Some(strength) ==> strength.spec_strength()
            <= MonitorIdentityView::of(monitors, monitor).matches(
            monitors,
            monitor,
        )->0.spec_strength(),
{
}

/// No monitor matches the identity of another one more strongly than the other one itself.
pub proof fn lemma_own_match_is_strongest(monitors: Seq<MonitorView>, own: int, other: int)
    requires
        0 <= own < monitors.len() <= usize::MAX,
        0 <= other < monitors.len(),
    ensures
        MonitorIdentityView::of(monitors, own).matches(monitors, other) matches Some(strength)
            ==> strength.spec_strength() <= MonitorIdentityView::of(monitors, own).matches(
            monitors,
            own,
        )->0.spec_strength(),
{
}

/// Instances that were placed on their home monitor are placed there again.
proof fn lemma_homes_stay(
    instances: Seq<WorkspaceView>,
    monitors: Seq<MonitorView>,
    later: Seq<WorkspaceView>,
    origin: Seq<int>,
    j: int,
)
    requires
        instances.len() <= usize::MAX,
        0 < monitors.len() <= usize::MAX,
        distinct_monitors(monitors),
        are_applied(instances, monitors, later, origin),
        homes_are_undisputed(instances, monitors, later, origin),
        0 <= j < later.len(),
        placement_of(page_placements(instances, monitors), origin[j]).is_home,
    ensures
        placement_of(page_placements(later, monitors), j).is_home,
        placement_of(page_placements(later, monitors), j).monitor == placement_of(
            page_placements(instances, monitors),
            origin[j],
        ).monitor,
{
    let all = page_placements(instances, monitors);
    let own = placement_of(all, origin[j]);
    let monitor = own.monitor as int;
    let k = lemma_placement_exists(instances, monitors, origin[j]);
    assert(is_applied(instances[origin[j]], monitors, own, later[j]));
    lemma_monitor_position_exact(monitors, monitor, 0);
    lemma_own_strength(monitors, monitor, later[j].home->0);
    let key = claim_key(later[j], j, monitors, monitor);
    assert forall|i: int, m: int|
        0 <= i < later.len() && 0 <= m < monitors.len() && (i == j) != (m == monitor)
            && #[trigger] claim_strength(later[i], monitors, m) is Some implies !claim_key(
        later[i],
        i,
        monitors,
        m,
    ).at_most(key) by {
        if i == j {
            lemma_own_match_is_strongest(monitors, monitor, m);
        } else {
            let other = placement_of(all, origin[i]);
            let l = lemma_placement_exists(instances, monitors, origin[i]);
            assert(is_applied(instances[origin[i]], monitors, other, later[i]));
            lemma_monitor_position_exact(monitors, other.monitor as int, 0);
            lemma_own_strength(monitors, monitor, later[i].home->0);
            if other.monitor == monitor {
                if other.is_home {
                    let homes = home_placements(instances, monitors);
                    lemma_home_placements(instances, monitors);
                    lemma_placements(instances, monitors);
                    assert(all[k] == homes[k] && all[l] == homes[l]);
                    assert(origin[i] != origin[j]);
                    if k < l {
                        assert(homes[k].monitor != homes[l].monitor);
                    } else {
                        assert(homes[l].monitor != homes[k].monitor);
                    }
                }
                assert(key.at_most(claim_key(later[i], i, monitors, monitor)));
            }
        }
    }
    lemma_best_claim_is_granted(later, monitors, j, monitor);
}

/// Instances that weren't placed on a home monitor aren't placed on one when placed again.
proof fn lemma_orphans_stay(
    instances: Seq<WorkspaceView>,
    monitors: Seq<MonitorView>,
    later: Seq<WorkspaceView>,
    origin: Seq<int>,
    j: int,
)
    requires
        instances.len() <= usize::MAX,
        0 < monitors.len() <= usize::MAX,
        distinct_monitors(monitors),
        are_applied(instances, monitors, later, origin),
        homes_are_undisputed(instances, monitors, later, origin),
        0 <= j < later.len(),
        !placement_of(page_placements(instances, monitors), origin[j]).is_home,
    ensures
        !placement_of(page_placements(later, monitors), j).is_home,
{
    let all = page_placements(instances, monitors);
    let again = page_placements(later, monitors);
    let own = placement_of(all, origin[j]);
    let new = placement_of(again, j);
    let k = lemma_placement_exists(instances, monitors, origin[j]);
    let n = lemma_placement_exists(later, monitors, j);
    assert(is_applied(instances[origin[j]], monitors, own, later[j]));
    if new.is_home {
        let m = new.monitor;
        law_claims_yield_to_stronger_ones_only(instances, monitors, origin[j] as usize, m);
        let claim = Claim { instance: origin[j] as usize, monitor: m };
        let l = choose|l: int|
            0 <= l < instances.len() && yields_to(instances, monitors, claim, #[trigger] all[l]);
        lemma_placement_of(instances, monitors, l);
        assert(all[l].monitor == m);
        lemma_origin_is_onto(origin, instances.len(), all[l].instance as int);
        let i = choose|i: int| 0 <= i < origin.len() && origin[i] == all[l].instance as int;
        lemma_homes_stay(instances, monitors, later, origin, i);
        let o = lemma_placement_exists(later, monitors, i);
        lemma_home_placements(later, monitors);
        lemma_placements(later, monitors);
        let homes = home_placements(later, monitors);
        assert(again[n] == homes[n] && again[o] == homes[o]);
        if n < o {
            assert(homes[n].monitor != homes[o].monitor);
        } else if o < n {
            assert(homes[o].monitor != homes[n].monitor);
        }
    }
}

/// A list of distinct numbers below its length holds every such number.
pub proof fn lemma_origin_is_onto(origin: Seq<int>, count: nat, number: int)
    requires
        origin.len() == count,
        origin.no_duplicates(),
        forall|j: int| 0 <= j < origin.len() ==> 0 <= #[trigger] origin[j] < count,
        0 <= number < count,
    ensures
        origin.contains(number),
{
    if !origin.contains(number) {
        let all = vstd::set_lib::set_int_range(0, count as int);
        vstd::set_lib::lemma_int_range(0, count as int);
        origin.unique_seq_to_set();
        assert(origin.to_set().subset_of(all.remove(number)));
        vstd::set_lib::lemma_len_subset(origin.to_set(), all.remove(number));
    }
}

/// The free monitors depend on which monitors have a placement only.
pub proof fn lemma_free_monitors_agree(a: Seq<PagePlacement>, b: Seq<PagePlacement>, count: nat)
    requires
        count <= usize::MAX,
        forall|m: usize| m < count ==> (#[trigger] places_monitor(a, m)) == places_monitor(b, m),
    ensures
        free_monitors(a, count) == free_monitors(b, count),
    decreases count,
{
    if count > 0 {
        lemma_free_monitors_agree(a, b, (count - 1) as nat);
        assert(places_monitor(a, (count - 1) as usize) == places_monitor(
            b,
            (count - 1) as usize,
        ));
    }
}

/// Two orders of the same items agree if the keys of the one ascend strictly, and those of the
/// other don't descend.
pub proof fn lemma_orders_agree(a: Seq<int>, b: Seq<int>, keys: spec_fn(int) -> SortKey, k: int)
    requires
        a.len() == b.len(),
        0 <= k < a.len(),
        a.no_duplicates(),
        b.no_duplicates(),
        forall|i: int| 0 <= i < a.len() ==> b.contains(#[trigger] a[i]),
        forall|i: int| 0 <= i < b.len() ==> a.contains(#[trigger] b[i]),
        forall|i: int, j: int|
            0 <= i < j < a.len() ==> !keys(#[trigger] a[j]).at_most(keys(#[trigger] a[i])),
        forall|i: int, j: int|
            0 <= i < j < b.len() ==> keys(#[trigger] b[i]).at_most(keys(#[trigger] b[j])),
    ensures
        a[k] == b[k],
    decreases k,
{
    assert forall|i: int| 0 <= i < k implies a[i] == b[i] by {
        lemma_orders_agree(a, b, keys, i);
    }
    if a[k] != b[k] {
        assert(b.contains(a[k]));
        assert(a.contains(b[k]));
        let p = choose|p: int| 0 <= p < b.len() && b[p] == a[k];
        let q = choose|q: int| 0 <= q < a.len() && a[q] == b[k];
        if p < k {
            assert(a[p] == b[p]);
        }
        if q < k {
            assert(a[q] == b[q]);
        }
        assert(keys(b[k]).at_most(keys(b[p])));
        assert(!keys(a[q]).at_most(keys(a[k])));
    }
}

/// Assigning pages again, after the assignment was applied, gives every instance the same
/// monitor and page, in whatever order the instances are listed by then. This takes that no
/// instance hosted by the home monitor of another has a better claim to the monitor.
pub proof fn law_repeated_assignment_is_stable(
    instances: Seq<WorkspaceView>,
    monitors: Seq<MonitorView>,
    later: Seq<WorkspaceView>,
    origin: Seq<int>,
    j: int,
)
    requires
        instances.len() <= usize::MAX,
        0 < monitors.len() <= usize::MAX,
        distinct_monitors(monitors),
        are_applied(instances, monitors, later, origin),
        homes_are_undisputed(instances, monitors, later, origin),
        0 <= j < later.len(),
    ensures
        placement_of(page_placements(later, monitors), j).monitor == placement_of(
            page_placements(instances, monitors),
            origin[j],
        ).monitor,
        placement_of(page_placements(later, monitors), j).page == placement_of(
            page_placements(instances, monitors),
            origin[j],
        ).page,
        placement_of(page_placements(later, monitors), j).is_home == placement_of(
            page_placements(instances, monitors),
            origin[j],
        ).is_home,
{
    let before = page_placements(instances, monitors);
    let after = page_placements(later, monitors);
    let homes_before = home_placements(instances, monitors);
    let homes_after = home_placements(later, monitors);
    let k = lemma_placement_exists(instances, monitors, origin[j]);
    let n = lemma_placement_exists(later, monitors, j);
    lemma_placements(instances, monitors);
    lemma_placements(later, monitors);
    lemma_home_placements(instances, monitors);
    lemma_home_placements(later, monitors);
    if before[k].is_home {
        lemma_homes_stay(instances, monitors, later, origin, j);
    } else {
        lemma_orphans_stay(instances, monitors, later, origin, j);
        assert forall|m: usize| m < monitors.len() implies (#[trigger] places_monitor(
            homes_before,
            m,
        )) == places_monitor(homes_after, m) by {
            if places_monitor(homes_before, m) {
                let h = choose|h: int|
                    0 <= h < homes_before.len() && (#[trigger] homes_before[h]).monitor == m;
                assert(before[h] == homes_before[h]);
                assert(is_home_placement(instances, monitors, homes_before[h]));
                lemma_placement_of(instances, monitors, h);
                lemma_origin_is_onto(origin, instances.len(), before[h].instance as int);
                let i = choose|i: int|
                    0 <= i < origin.len() && origin[i] == before[h].instance as int;
                lemma_homes_stay(instances, monitors, later, origin, i);
                let o = lemma_placement_exists(later, monitors, i);
                assert(after[o] == homes_after[o]);
            }
            if places_monitor(homes_after, m) {
                let h = choose|h: int|
                    0 <= h < homes_after.len() && (#[trigger] homes_after[h]).monitor == m;
                assert(after[h] == homes_after[h]);
                assert(is_home_placement(later, monitors, homes_after[h]));
                lemma_placement_of(later, monitors, h);
                let i = after[h].instance as int;
                let o = lemma_placement_exists(instances, monitors, origin[i]);
                if before[o].is_home {
                    lemma_homes_stay(instances, monitors, later, origin, i);
                    assert(before[o] == homes_before[o]);
                } else {
                    lemma_orphans_stay(instances, monitors, later, origin, i);
                }
            }
        }
        lemma_free_monitors_agree(homes_before, homes_after, monitors.len());
        lemma_orphan_order(instances, monitors);
        lemma_orphan_order(later, monitors);
        let old_order = orphan_order(instances, monitors);
        let new_order = orphan_order(later, monitors);
        let free = free_monitors(homes_before, monitors.len());
        assert(old_order.len() == new_order.len());
        // The new positions of the orphans, in their former and in their new order.
        let a = Seq::new(
            old_order.len(),
            |i: int| origin.index_of(old_order[i].item as int),
        );
        let b = Seq::new(new_order.len(), |i: int| new_order[i].item as int);
        let keys = |i: int| orphan_key(later[i], monitors);
        assert forall|i: int| 0 <= i < a.len() implies 0 <= #[trigger] a[i] < later.len()
            && origin[a[i]] == old_order[i].item && placement_of(before, origin[a[i]])
            == before[homes_before.len() + i] by {
            lemma_origin_is_onto(origin, instances.len(), old_order[i].item as int);
            lemma_placement_of(instances, monitors, homes_before.len() + i);
        }
        assert(a.no_duplicates()) by {
            assert forall|i: int, l: int|
                0 <= i < a.len() && 0 <= l < a.len() && i != l implies a[i] != a[l] by {
                assert(origin[a[i]] == old_order[i].item && origin[a[l]] == old_order[l].item);
                if i < l {
                    assert(old_order[i].item != old_order[l].item);
                } else {
                    assert(old_order[l].item != old_order[i].item);
                }
            }
        }
        assert(b.no_duplicates()) by {
            assert forall|i: int, l: int|
                0 <= i < b.len() && 0 <= l < b.len() && i != l implies b[i] != b[l] by {
                if i < l {
                    assert(new_order[i].item != new_order[l].item);
                } else {
                    assert(new_order[l].item != new_order[i].item);
                }
            }
        }
        assert forall|i: int| 0 <= i < a.len() implies b.contains(#[trigger] a[i]) by {
            assert(placement_of(before, origin[a[i]]) == before[homes_before.len() + i]);
            lemma_orphans_stay(instances, monitors, later, origin, a[i]);
            let o = lemma_placement_exists(later, monitors, a[i]);
            let at = o - homes_after.len();
            assert(after[o].instance == new_order[at].item);
            assert(b[at] == a[i]);
        }
        assert forall|i: int| 0 <= i < b.len() implies a.contains(#[trigger] b[i]) by {
            let o = homes_after.len() + i;
            lemma_placement_of(later, monitors, o);
            assert(after[o].instance == new_order[i].item);
            let p = lemma_placement_exists(instances, monitors, origin[b[i]]);
            if before[p].is_home {
                lemma_homes_stay(instances, monitors, later, origin, b[i]);
            }
            let at = p - homes_before.len();
            assert(before[p].instance == old_order[at].item);
            assert(origin[a[at]] == origin[b[i]]);
            assert(a[at] == b[i]);
        }
        assert forall|i: int, l: int| 0 <= i < l < a.len() implies !keys(#[trigger] a[l]).at_most(
            keys(#[trigger] a[i]),
        ) by {
            let (x, y) = (homes_before.len() + i, homes_before.len() + l);
            lemma_orphan_slots_ascend(instances, monitors, x, y);
            assert(old_order[i].key.at_most(old_order[l].key));
            assert(is_applied(
                instances[origin[a[i]]],
                monitors,
                placement_of(before, origin[a[i]]),
                later[a[i]],
            ));
            assert(is_applied(
                instances[origin[a[l]]],
                monitors,
                placement_of(before, origin[a[l]]),
                later[a[l]],
            ));
            lemma_monitor_position_exact(monitors, before[x].monitor as int, 0);
            lemma_monitor_position_exact(monitors, before[y].monitor as int, 0);
        }
        assert forall|i: int, l: int| 0 <= i < l < b.len() implies keys(#[trigger] b[i]).at_most(
            keys(#[trigger] b[l]),
        ) by {
            assert(new_order[i].key.at_most(new_order[l].key));
        }
        let at = k - homes_before.len();
        assert(before[k].instance == old_order[at].item);
        assert(origin[a[at]] == origin[j]);
        lemma_orders_agree(a, b, keys, at);
        assert(new_order[at].item == j);
        let o = homes_after.len() + at;
        lemma_placement_of(later, monitors, o);
        assert(after[o].instance == j);
    }
}

} // verus!
