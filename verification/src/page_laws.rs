//! What holds of every assignment of pages.
use vstd::prelude::*;

use crate::monitor::MonitorView;
use crate::page_placement::{
    claim_entry, claim_key, claim_order, claim_strength, free_monitors, granted, home_placement,
    home_placements, is_claim, is_home_placement, lemma_claim_order, lemma_free_monitors,
    lemma_granted, lemma_home_placements, lemma_partition, lemma_slot_above, lemma_unplaced,
    orphan_entries, orphan_key, orphan_placement, orphan_placements, orphan_slot, page_placements,
    places_instance, places_monitor, unplaced, Claim, PagePlacement,
};
use crate::stable_sort::{is_sorted, stable_sorted, Ranked};
use crate::workspace::WorkspaceView;

verus! {

/// Order in which orphans are placed.
pub open spec fn orphan_order(
    instances: Seq<WorkspaceView>,
    monitors: Seq<MonitorView>,
) -> Seq<Ranked<usize>> {
    stable_sorted(
        orphan_entries(
            instances,
            monitors,
            unplaced(home_placements(instances, monitors), instances.len()),
        ),
    )
}

/// The orphans are ordered by their keys, and are the instances without a home placement, each
/// once.
pub proof fn lemma_orphan_order(instances: Seq<WorkspaceView>, monitors: Seq<MonitorView>)
    requires
        instances.len() <= usize::MAX,
        monitors.len() <= usize::MAX,
    ensures
        orphan_order(instances, monitors).len() == unplaced(
            home_placements(instances, monitors),
            instances.len(),
        ).len(),
        is_sorted(orphan_order(instances, monitors)),
        forall|k: int|
            0 <= k < orphan_order(instances, monitors).len() ==> {
                let entry = #[trigger] orphan_order(instances, monitors)[k];
                &&& entry.item < instances.len()
                &&& entry.key == orphan_key(instances[entry.item as int], monitors)
                &&& !places_instance(home_placements(instances, monitors), entry.item)
            },
        forall|k: int, l: int|
            0 <= k < l < orphan_order(instances, monitors).len() ==> (#[trigger] orphan_order(
                instances,
                monitors,
            )[k]).item != (#[trigger] orphan_order(instances, monitors)[l]).item,
        forall|i: usize|
            i < instances.len() && !places_instance(home_placements(instances, monitors), i)
                ==> exists|k: int|
                0 <= k < orphan_order(instances, monitors).len() && (#[trigger] orphan_order(
                    instances,
                    monitors,
                )[k]).item == i,
{
    let homes = home_placements(instances, monitors);
    let orphans = unplaced(homes, instances.len());
    let entries = orphan_entries(instances, monitors, orphans);
    let order = orphan_order(instances, monitors);
    lemma_unplaced(homes, instances.len());
    crate::stable_sort::lemma_sorting_keeps(entries);
    crate::stable_sort::law_sorting_orders_and_keeps(entries);
    assert(entries.no_duplicates()) by {
        assert forall|i: int, j: int|
            0 <= i < entries.len() && 0 <= j < entries.len() && i != j implies entries[i]
            != entries[j] by {
            assert(entries[i].item == orphans[i] && entries[j].item == orphans[j]);
            if i < j {
                assert(orphans[i] < orphans[j]);
            } else {
                assert(orphans[j] < orphans[i]);
            }
        }
    }
    crate::stable_sort::lemma_sorting_keeps_distinct(entries);
    assert forall|k: int| 0 <= k < order.len() implies {
        let entry = #[trigger] order[k];
        &&& entry.item < instances.len()
        &&& entry.key == orphan_key(instances[entry.item as int], monitors)
        &&& !places_instance(homes, entry.item)
    } by {
        assert(entries.contains(order[k]));
        let j = choose|j: int| 0 <= j < entries.len() && entries[j] == order[k];
        assert(orphans[j] == order[k].item);
    }
    assert forall|k: int, l: int| 0 <= k < l < order.len() implies (#[trigger] order[k]).item != (
    #[trigger] order[l]).item by {
        assert(order[k] != order[l]);
    }
    assert forall|i: usize| i < instances.len() && !places_instance(homes, i) implies exists|k: int|
        0 <= k < order.len() && (#[trigger] order[k]).item == i by {
        assert(orphans.contains(i));
        let j = choose|j: int| 0 <= j < orphans.len() && orphans[j] == i;
        assert(order.contains(entries[j]));
        let k = choose|k: int| 0 <= k < order.len() && order[k] == entries[j];
        assert(order[k].item == i);
    }
}

/// Every placement is either one to a home monitor, or that of an orphan to its slot.
pub proof fn lemma_placements(instances: Seq<WorkspaceView>, monitors: Seq<MonitorView>)
    requires
        instances.len() <= usize::MAX,
        0 < monitors.len() <= usize::MAX,
    ensures
        ({
            let all = page_placements(instances, monitors);
            let homes = home_placements(instances, monitors);
            let free = free_monitors(homes, monitors.len());
            let order = orphan_order(instances, monitors);
            &&& all.len() == instances.len()
            &&& homes.len() + order.len() == instances.len()
            &&& homes.len() + free.len() == monitors.len()
            &&& forall|k: int| 0 <= k < homes.len() ==> #[trigger] all[k] == homes[k]
            &&& forall|k: int|
                homes.len() <= k < all.len() ==> #[trigger] all[k] == orphan_placement(
                    instances,
                    free,
                    monitors.len(),
                    order,
                    k - homes.len(),
                )
            &&& forall|k: int|
                homes.len() <= k < all.len() ==> (#[trigger] all[k]).page == orphan_slot(
                    free,
                    monitors.len(),
                    k - homes.len(),
                ).1
            &&& forall|k: int|
                homes.len() <= k < all.len() ==> (#[trigger] all[k]).monitor == orphan_slot(
                    free,
                    monitors.len(),
                    k - homes.len(),
                ).0
            &&& forall|k: int|
                0 <= k < all.len() ==> (#[trigger] all[k]).monitor < monitors.len()
                    && all[k].instance < instances.len() && all[k].page >= 1 && all[k].workspace
                    == instances[all[k].instance as int].id
        }),
{
    let all = page_placements(instances, monitors);
    let homes = home_placements(instances, monitors);
    let free = free_monitors(homes, monitors.len());
    let order = orphan_order(instances, monitors);
    lemma_home_placements(instances, monitors);
    lemma_partition(homes, instances.len(), monitors.len());
    lemma_orphan_order(instances, monitors);
    lemma_free_monitors(homes, monitors.len());
    let packed = orphan_placements(
        instances,
        monitors,
        unplaced(homes, instances.len()),
        free,
    );
    assert forall|k: int| 0 <= k < homes.len() implies #[trigger] all[k] == homes[k]
        && is_home_placement(instances, monitors, homes[k]) by {}
    assert forall|k: int| homes.len() <= k < all.len() implies {
        &&& #[trigger] all[k] == orphan_placement(
            instances,
            free,
            monitors.len(),
            order,
            k - homes.len(),
        )
        &&& all[k].page == orphan_slot(free, monitors.len(), k - homes.len()).1
        &&& all[k].monitor == orphan_slot(free, monitors.len(), k - homes.len()).0
        &&& all[k].monitor < monitors.len()
        &&& all[k].page >= 1
    } by {
        let place = k - homes.len();
        assert(all[k] == packed[place]);
        if place >= free.len() {
            lemma_slot_above(free, monitors.len(), place);
        } else {
            assert(free[place] < monitors.len());
        }
    }
}

/// Every instance of a group is placed exactly once, and on one of the monitors.
pub proof fn law_every_instance_is_placed_once(
    instances: Seq<WorkspaceView>,
    monitors: Seq<MonitorView>,
)
    requires
        instances.len() <= usize::MAX,
        0 < monitors.len() <= usize::MAX,
    ensures
        page_placements(instances, monitors).len() == instances.len(),
        forall|i: usize|
            i < instances.len() ==> #[trigger] places_instance(
                page_placements(instances, monitors),
                i,
            ),
        forall|k: int, l: int|
            0 <= k < l < instances.len() ==> (#[trigger] page_placements(
                instances,
                monitors,
            )[k]).instance != (#[trigger] page_placements(instances, monitors)[l]).instance,
        forall|k: int|
            0 <= k < instances.len() ==> {
                let placement = #[trigger] page_placements(instances, monitors)[k];
                &&& placement.monitor < monitors.len()
                &&& placement.instance < instances.len()
                &&& placement.workspace == instances[placement.instance as int].id
            },
{
    let all = page_placements(instances, monitors);
    let homes = home_placements(instances, monitors);
    let order = orphan_order(instances, monitors);
    lemma_placements(instances, monitors);
    lemma_home_placements(instances, monitors);
    lemma_orphan_order(instances, monitors);
    assert forall|index: usize| index < instances.len() implies #[trigger] places_instance(
        all,
        index,
    ) by {
        if places_instance(homes, index) {
            let k = choose|k: int|
                0 <= k < homes.len() && (#[trigger] homes[k]).instance == index;
            assert(all[k].instance == index);
        } else {
            let k = choose|k: int| 0 <= k < order.len() && (#[trigger] order[k]).item == index;
            assert(all[homes.len() + k].instance == index);
        }
    }
    assert forall|k: int, l: int| 0 <= k < l < instances.len() implies (#[trigger] all[k]).instance
        != (#[trigger] all[l]).instance by {
        if l < homes.len() {
            assert(all[k] == homes[k] && all[l] == homes[l]);
        } else if k < homes.len() {
            assert(all[k] == homes[k]);
            assert(places_instance(homes, homes[k].instance));
            assert(all[l].instance == order[l - homes.len()].item);
        } else {
            assert(all[k].instance == order[k - homes.len()].item);
            assert(all[l].instance == order[l - homes.len()].item);
        }
    }
}

/// Whether a slot comes before another: on an earlier page, or further left on the same page.
pub open spec fn slot_before(a: PagePlacement, b: PagePlacement) -> bool {
    a.page < b.page || a.page == b.page && a.monitor < b.monitor
}

/// Each slot comes before that of the next orphan.
pub proof fn lemma_orphan_slots_ascend(
    instances: Seq<WorkspaceView>,
    monitors: Seq<MonitorView>,
    k: int,
    l: int,
)
    requires
        instances.len() <= usize::MAX,
        0 < monitors.len() <= usize::MAX,
        home_placements(instances, monitors).len() <= k < l < instances.len(),
    ensures
        slot_before(
            page_placements(instances, monitors)[k],
            page_placements(instances, monitors)[l],
        ),
{
    let homes = home_placements(instances, monitors);
    let free = free_monitors(homes, monitors.len());
    lemma_placements(instances, monitors);
    lemma_free_monitors(homes, monitors.len());
    let all = page_placements(instances, monitors);
    let a = k - homes.len();
    let b = l - homes.len();
    assert(all[k].page == orphan_slot(free, monitors.len(), a).1);
    assert(all[l].page == orphan_slot(free, monitors.len(), b).1);
    assert(all[k].monitor == orphan_slot(free, monitors.len(), a).0);
    assert(all[l].monitor == orphan_slot(free, monitors.len(), b).0);
    if b < free.len() {
        assert(free[a] < free[b]);
    } else if a < free.len() {
        lemma_slot_above(free, monitors.len(), b);
    } else {
        let m = monitors.len() as int;
        let (x, y) = (a - free.len(), b - free.len());
        vstd::arithmetic::div_mod::lemma_fundamental_div_mod(x, m);
        vstd::arithmetic::div_mod::lemma_fundamental_div_mod(y, m);
        vstd::arithmetic::div_mod::lemma_div_is_ordered(x, y, m);
    }
}

/// No two instances share a slot: each monitor takes at most one instance per page.
pub proof fn law_slots_hold_one_instance(
    instances: Seq<WorkspaceView>,
    monitors: Seq<MonitorView>,
    k: int,
    l: int,
)
    requires
        instances.len() <= usize::MAX,
        0 < monitors.len() <= usize::MAX,
        0 <= k < l < instances.len(),
    ensures
        page_placements(instances, monitors)[k].monitor != page_placements(
            instances,
            monitors,
        )[l].monitor || page_placements(instances, monitors)[k].page != page_placements(
            instances,
            monitors,
        )[l].page,
{
    let homes = home_placements(instances, monitors);
    let free = free_monitors(homes, monitors.len());
    let all = page_placements(instances, monitors);
    lemma_placements(instances, monitors);
    lemma_home_placements(instances, monitors);
    lemma_free_monitors(homes, monitors.len());
    if k >= homes.len() {
        lemma_orphan_slots_ascend(instances, monitors, k, l);
    } else if l < homes.len() {
        assert(all[k] == homes[k] && all[l] == homes[l]);
    } else {
        let place = l - homes.len();
        assert(all[k] == homes[k]);
        assert(is_home_placement(instances, monitors, homes[k]));
        assert(all[l].page == orphan_slot(free, monitors.len(), place).1);
        assert(all[l].monitor == orphan_slot(free, monitors.len(), place).0);
        if place < free.len() {
            assert(!places_monitor(homes, free[place]));
        } else {
            lemma_slot_above(free, monitors.len(), place);
        }
    }
}

/// Whether a slot holds an instance.
pub open spec fn is_filled(placements: Seq<PagePlacement>, monitor: int, page: int) -> bool {
    exists|k: int|
        0 <= k < placements.len() && (#[trigger] placements[k]).monitor == monitor
            && placements[k].page == page
}

/// Pages have no gaps: before any instance is put on a page, every monitor has one on each of
/// the earlier pages.
pub proof fn law_earlier_pages_are_full(
    instances: Seq<WorkspaceView>,
    monitors: Seq<MonitorView>,
    k: int,
    monitor: int,
    page: int,
)
    requires
        instances.len() <= usize::MAX,
        0 < monitors.len() <= usize::MAX,
        0 <= k < instances.len(),
        0 <= monitor < monitors.len(),
        1 <= page < page_placements(instances, monitors)[k].page,
    ensures
        is_filled(page_placements(instances, monitors), monitor, page),
{
    let homes = home_placements(instances, monitors);
    let free = free_monitors(homes, monitors.len());
    let all = page_placements(instances, monitors);
    lemma_placements(instances, monitors);
    lemma_home_placements(instances, monitors);
    lemma_free_monitors(homes, monitors.len());
    if k < homes.len() {
        assert(is_home_placement(instances, monitors, homes[k]));
        assert(all[k] == homes[k]);
    }
    let place = k - homes.len();
    assert(all[k].page == orphan_slot(free, monitors.len(), place).1);
    assert(place >= free.len());
    let m = monitors.len() as int;
    if page == 1 {
        let index = monitor as usize;
        if places_monitor(homes, index) {
            let j = choose|j: int| 0 <= j < homes.len() && (#[trigger] homes[j]).monitor == index;
            assert(is_home_placement(instances, monitors, homes[j]));
            assert(all[j].monitor == monitor && all[j].page == 1);
        } else {
            assert(free.contains(index));
            let j = choose|j: int| 0 <= j < free.len() && free[j] == index;
            assert(all[homes.len() + j].monitor == monitor);
            assert(all[homes.len() + j].page == 1);
        }
    } else {
        let further = (page - 2) * m + monitor;
        let other = free.len() + further;
        vstd::arithmetic::div_mod::lemma_fundamental_div_mod_converse(further, m, page - 2, monitor);
        let x = place - free.len();
        vstd::arithmetic::div_mod::lemma_fundamental_div_mod(x, m);
        assert(m * (x / m) == (x / m) * m) by (nonlinear_arith);
        assert((page - 2) * m + m <= (x / m) * m) by (nonlinear_arith)
            requires
                page - 2 + 1 <= x / m,
                m > 0,
        ;
        assert(0 <= (page - 2) * m) by (nonlinear_arith)
            requires
                page >= 2,
                m > 0,
        ;
        assert(0 <= further < x);
        assert(orphan_slot(free, monitors.len(), other) == (monitor, page));
        let j = homes.len() + other;
        assert(all[j].monitor == monitor && all[j].page == page);
    }
}

/// Instances on their home monitor are on the first page, and their home matches the monitor.
pub proof fn law_homes_form_the_first_page(
    instances: Seq<WorkspaceView>,
    monitors: Seq<MonitorView>,
    k: int,
)
    requires
        instances.len() <= usize::MAX,
        0 < monitors.len() <= usize::MAX,
        0 <= k < instances.len(),
        page_placements(instances, monitors)[k].is_home,
    ensures
        page_placements(instances, monitors)[k].page == 1,
        ({
            let placement = page_placements(instances, monitors)[k];
            claim_strength(
                instances[placement.instance as int],
                monitors,
                placement.monitor as int,
            ) is Some
        }),
{
    let homes = home_placements(instances, monitors);
    lemma_placements(instances, monitors);
    lemma_home_placements(instances, monitors);
    if k < homes.len() {
        assert(page_placements(instances, monitors)[k] == homes[k]);
        assert(is_home_placement(instances, monitors, homes[k]));
    }
}

/// The first claims that were considered are granted, or yielded to a claim that ranks at least
/// as high.
proof fn lemma_claims_yield(
    instances: Seq<WorkspaceView>,
    monitors: Seq<MonitorView>,
    count: nat,
    at: int,
)
    requires
        instances.len() <= usize::MAX,
        monitors.len() <= usize::MAX,
        0 <= at < count <= claim_order(instances, monitors).len(),
    ensures
        exists|j: int|
            0 <= j < granted(instances, claim_order(instances, monitors), count).len()
                && yields_to(
                instances,
                monitors,
                claim_order(instances, monitors)[at].item,
                #[trigger] granted(instances, claim_order(instances, monitors), count)[j],
            ),
    decreases count,
{
    let order = claim_order(instances, monitors);
    let rest = granted(instances, order, (count - 1) as nat);
    let now = granted(instances, order, count);
    lemma_claim_order(instances, monitors);
    let claim = order[at].item;
    assert(is_claim(instances, monitors, order[at]));
    if at < count - 1 {
        lemma_claims_yield(instances, monitors, (count - 1) as nat, at);
        let j = choose|j: int|
            0 <= j < rest.len() && yields_to(instances, monitors, claim, #[trigger] rest[j]);
        assert(now[j] == rest[j]);
    } else if places_instance(rest, claim.instance) || places_monitor(rest, claim.monitor) {
        let j = if places_instance(rest, claim.instance) {
            choose|j: int| 0 <= j < rest.len() && (#[trigger] rest[j]).instance == claim.instance
        } else {
            choose|j: int| 0 <= j < rest.len() && (#[trigger] rest[j]).monitor == claim.monitor
        };
        lemma_granted(instances, order, (count - 1) as nat);
        let i = choose|i: int|
            0 <= i < count - 1 && rest[j] == home_placement(instances, (#[trigger] order[i]).item);
        assert(is_claim(instances, monitors, order[i]));
        assert(order[i].key.at_most(order[at].key));
        assert(now[j] == rest[j]);
    } else {
        assert(now[rest.len() as int] == home_placement(instances, claim));
    }
}

/// Whether a claim is the one that a placement grants, or excluded by it while ranking no
/// higher.
pub open spec fn yields_to(
    instances: Seq<WorkspaceView>,
    monitors: Seq<MonitorView>,
    claim: Claim,
    placement: PagePlacement,
) -> bool {
    &&& placement.is_home
    &&& placement.instance == claim.instance || placement.monitor == claim.monitor
    &&& claim_key(
        instances[placement.instance as int],
        placement.instance as int,
        monitors,
        placement.monitor as int,
    ).at_most(
        claim_key(
            instances[claim.instance as int],
            claim.instance as int,
            monitors,
            claim.monitor as int,
        ),
    )
}

/// An instance whose home monitor is connected gets it, unless its claim yields to one that
/// ranks at least as high: to another monitor for the instance, or of another instance to the
/// monitor.
pub proof fn law_claims_yield_to_stronger_ones_only(
    instances: Seq<WorkspaceView>,
    monitors: Seq<MonitorView>,
    instance: usize,
    monitor: usize,
)
    requires
        instances.len() <= usize::MAX,
        0 < monitors.len() <= usize::MAX,
        instance < instances.len(),
        monitor < monitors.len(),
        claim_strength(instances[instance as int], monitors, monitor as int) is Some,
    ensures
        exists|k: int|
            0 <= k < instances.len() && yields_to(
                instances,
                monitors,
                Claim { instance, monitor },
                #[trigger] page_placements(instances, monitors)[k],
            ),
{
    let order = claim_order(instances, monitors);
    lemma_claim_order(instances, monitors);
    lemma_placements(instances, monitors);
    let entry = claim_entry(instances, monitors, instance as int, monitor as int);
    assert(order.contains(entry));
    let at = choose|at: int| 0 <= at < order.len() && order[at] == entry;
    lemma_claims_yield(instances, monitors, order.len(), at);
    let homes = home_placements(instances, monitors);
    let j = choose|j: int|
        0 <= j < homes.len() && yields_to(
            instances,
            monitors,
            order[at].item,
            #[trigger] homes[j],
        );
    assert(page_placements(instances, monitors)[j] == homes[j]);
}

/// Instances away from their home fill the slots in the order of their keys: of two such
/// instances, the one with the smaller key comes earlier. In particular, screens of
/// disconnected monitors come before instances without a home.
pub proof fn law_orphans_fill_slots_in_order(
    instances: Seq<WorkspaceView>,
    monitors: Seq<MonitorView>,
    k: int,
    l: int,
)
    requires
        instances.len() <= usize::MAX,
        0 < monitors.len() <= usize::MAX,
        0 <= k < instances.len(),
        0 <= l < instances.len(),
        !page_placements(instances, monitors)[k].is_home,
        !page_placements(instances, monitors)[l].is_home,
        ({
            let a = page_placements(instances, monitors)[k].instance as int;
            let b = page_placements(instances, monitors)[l].instance as int;
            !orphan_key(instances[b], monitors).at_most(orphan_key(instances[a], monitors))
        }),
    ensures
        slot_before(
            page_placements(instances, monitors)[k],
            page_placements(instances, monitors)[l],
        ),
{
    let homes = home_placements(instances, monitors);
    let all = page_placements(instances, monitors);
    let order = orphan_order(instances, monitors);
    lemma_placements(instances, monitors);
    lemma_home_placements(instances, monitors);
    lemma_orphan_order(instances, monitors);
    if k < homes.len() {
        assert(is_home_placement(instances, monitors, homes[k]));
        assert(all[k] == homes[k]);
    }
    if l < homes.len() {
        assert(is_home_placement(instances, monitors, homes[l]));
        assert(all[l] == homes[l]);
    }
    let a = order[k - homes.len()];
    let b = order[l - homes.len()];
    assert(all[k].instance == a.item && all[l].instance == b.item);
    if l <= k {
        if l < k {
            assert(b.key.at_most(a.key));
        }
        assert(false);
    }
    lemma_orphan_slots_ascend(instances, monitors, k, l);
}

} // verus!
