//! How the first page is assigned where homes are settled.
use vstd::prelude::*;

use crate::monitor::MonitorView;
use crate::monitor_identity::MonitorIdentityView;
use crate::page_laws::{
    is_filled, law_claims_yield_to_stronger_ones_only, law_earlier_pages_are_full,
    law_every_instance_is_placed_once, law_homes_form_the_first_page,
    law_orphans_fill_slots_in_order, law_slots_hold_one_instance, lemma_placements, yields_to,
};
use crate::page_placement::{
    claim_key, claim_strength, free_monitors, home_placements, host_position, is_home_placement,
    lemma_free_monitors, lemma_home_placements, orphan_key, page_placements, places_monitor, Claim,
};
use crate::page_stability::{
    lemma_best_claim_is_granted, lemma_own_match_is_strongest, lemma_own_strength,
    lemma_placement_exists, lemma_placement_of, placement_of,
};
use crate::workspace::WorkspaceView;

verus! {

/// Whether an instance has a home, and none of the monitors matches it.
pub open spec fn is_away(home: Option<MonitorIdentityView>, monitors: Seq<MonitorView>) -> bool {
    match home {
        Some(home) => forall|n: int|
            0 <= n < monitors.len() ==> (#[trigger] home.matches(monitors, n)) is None,
        None => false,
    }
}

/// Whether instances with the one home are put before those with the other one.
pub open spec fn home_at_most(
    a: Option<MonitorIdentityView>,
    b: Option<MonitorIdentityView>,
) -> bool {
    match (a, b) {
        (Some(a), Some(b)) => a.monitor_count > b.monitor_count || a.monitor_count
            == b.monitor_count && a.index <= b.index,
        (Some(a), None) => true,
        (None, Some(b)) => b.monitor_count == 0 && b.index == usize::MAX,
        (None, None) => true,
    }
}

/// Whether the first page holds one instance per monitor at most, each at home or without any
/// claim, whether further pages hold instances without a claim only, and whether the instances
/// away from home are in order.
#[verifier::opaque]
pub open spec fn is_tidy(instances: Seq<WorkspaceView>, monitors: Seq<MonitorView>) -> bool {
    &&& forall|i: int|
        0 <= i < instances.len() ==> {
            let instance = #[trigger] instances[i];
            &&& host_position(instance, monitors) is Some
            &&& 0 <= host_position(instance, monitors)->0 < monitors.len()
            &&& instance.config.spanning_page >= 1
            &&& instance.config.spanning_page == 1 ==> is_away(instance.home, monitors)
                || instance.home == Some(
                MonitorIdentityView::of(monitors, host_position(instance, monitors)->0),
            )
            &&& instance.config.spanning_page > 1 ==> instance.home is None || is_away(
                instance.home,
                monitors,
            )
        }
    &&& forall|i: int, j: int|
        0 <= i < instances.len() && 0 <= j < instances.len() && i != j && (
        #[trigger] instances[i]).config.spanning_page == 1 && (
        #[trigger] instances[j]).config.spanning_page == 1 ==> host_position(
            instances[i],
            monitors,
        ) != host_position(instances[j], monitors)
    &&& forall|i: int, j: int|
        0 <= i < instances.len() && 0 <= j < instances.len() && i != j && (
        #[trigger] instances[i]).config.spanning_page == 1 && is_away(instances[i].home, monitors)
            && (((#[trigger] instances[j]).config.spanning_page == 1 && is_away(
            instances[j].home,
            monitors,
        ) && host_position(instances[i], monitors)->0 < host_position(instances[j], monitors)->0)
            || instances[j].config.spanning_page > 1) ==> home_at_most(
            instances[i].home,
            instances[j].home,
        )
}

/// Whether every instance whose home is connected gets its home monitor, or another one that
/// matches its home.
pub open spec fn claims_are_granted(
    instances: Seq<WorkspaceView>,
    monitors: Seq<MonitorView>,
) -> bool {
    forall|i: int, n: int|
        0 <= i < instances.len() && 0 <= n < monitors.len() && (#[trigger] claim_strength(
            instances[i],
            monitors,
            n,
        )) is Some ==> placement_of(page_placements(instances, monitors), i).is_home
}

/// If no two instances have a home that matches the same monitor, all whose home is connected
/// get a monitor that matches it.
pub proof fn law_unrivalled_claims_are_granted(
    instances: Seq<WorkspaceView>,
    monitors: Seq<MonitorView>,
)
    requires
        instances.len() <= usize::MAX,
        0 < monitors.len() <= usize::MAX,
        forall|i: int, j: int, n: int|
            0 <= i < instances.len() && 0 <= j < instances.len() && i != j && 0 <= n
                < monitors.len() ==> !((#[trigger] claim_strength(
                instances[i],
                monitors,
                n,
            )) is Some && (#[trigger] claim_strength(instances[j], monitors, n)) is Some),
    ensures
        claims_are_granted(instances, monitors),
{
    let all = page_placements(instances, monitors);
    assert forall|i: int, n: int|
        0 <= i < instances.len() && 0 <= n < monitors.len() && (#[trigger] claim_strength(
            instances[i],
            monitors,
            n,
        )) is Some implies placement_of(all, i).is_home by {
        let claim = Claim { instance: i as usize, monitor: n as usize };
        law_claims_yield_to_stronger_ones_only(instances, monitors, i as usize, n as usize);
        let k = choose|k: int|
            0 <= k < instances.len() && yields_to(instances, monitors, claim, #[trigger] all[k]);
        lemma_placement_of(instances, monitors, k);
        law_homes_form_the_first_page(instances, monitors, k);
        let j = all[k].instance as int;
        if j != i {
            assert(all[k].monitor == n);
            assert(claim_strength(instances[j], monitors, n) is Some);
        }
    }
}

/// The first-page instances that are at home stay there.
pub proof fn lemma_tidy_home(
    instances: Seq<WorkspaceView>,
    monitors: Seq<MonitorView>,
    i: int,
    m: int,
)
    requires
        instances.len() <= usize::MAX,
        0 < monitors.len() <= usize::MAX,
        is_tidy(instances, monitors),
        0 <= i < instances.len(),
        host_position(instances[i], monitors) == Some(m),
        instances[i].config.spanning_page == 1,
        instances[i].home == Some(MonitorIdentityView::of(monitors, m)),
    ensures
        placement_of(page_placements(instances, monitors), i).is_home,
        placement_of(page_placements(instances, monitors), i).monitor == m,
{
    reveal(is_tidy);
    let own = instances[i].home->0;
    lemma_own_strength(monitors, m, own);
    assert forall|j: int, n: int|
        0 <= j < instances.len() && 0 <= n < monitors.len() && (j == i) != (n == m)
            && #[trigger] claim_strength(instances[j], monitors, n) is Some implies !claim_key(
        instances[j],
        j,
        monitors,
        n,
    ).at_most(claim_key(instances[i], i, monitors, m)) by {
        if j == i {
            lemma_own_match_is_strongest(monitors, m, n);
        } else {
            let home = instances[j].home->0;
            assert(home.matches(monitors, n) is Some);
            assert(instances[j].config.spanning_page == 1);
            lemma_own_strength(monitors, m, home);
        }
    }
    lemma_best_claim_is_granted(instances, monitors, i, m);
}

/// Where homes are settled, all whose home is connected get it.
pub proof fn lemma_tidy_claims_are_granted(
    instances: Seq<WorkspaceView>,
    monitors: Seq<MonitorView>,
)
    requires
        instances.len() <= usize::MAX,
        0 < monitors.len() <= usize::MAX,
        is_tidy(instances, monitors),
    ensures
        claims_are_granted(instances, monitors),
{
    assert forall|i: int, n: int|
        0 <= i < instances.len() && 0 <= n < monitors.len() && (#[trigger] claim_strength(
            instances[i],
            monitors,
            n,
        )) is Some implies placement_of(page_placements(instances, monitors), i).is_home by {
        reveal(is_tidy);
        assert(instances[i].home->0.matches(monitors, n) is Some);
        assert(instances[i].config.spanning_page == 1);
        lemma_tidy_home(instances, monitors, i, host_position(instances[i], monitors)->0);
    }
}

/// Whether every monitor has an instance of the first page.
pub open spec fn first_page_is_full(
    instances: Seq<WorkspaceView>,
    monitors: Seq<MonitorView>,
) -> bool {
    forall|m: int| 0 <= m < monitors.len() ==> #[trigger] hosts_first_page(instances, monitors, m)
}

pub open spec fn hosts_first_page(
    instances: Seq<WorkspaceView>,
    monitors: Seq<MonitorView>,
    m: int,
) -> bool {
    exists|i: int|
        0 <= i < instances.len() && host_position(#[trigger] instances[i], monitors) == Some(m)
            && instances[i].config.spanning_page == 1
}

/// The free monitors of the first page are filled from left to right.
pub proof fn lemma_filled_before(
    instances: Seq<WorkspaceView>,
    monitors: Seq<MonitorView>,
    k: int,
    m: int,
)
    requires
        instances.len() <= usize::MAX,
        0 < monitors.len() <= usize::MAX,
        0 <= k < instances.len(),
        !page_placements(instances, monitors)[k].is_home,
        page_placements(instances, monitors)[k].page == 1,
        0 <= m < page_placements(instances, monitors)[k].monitor,
    ensures
        is_filled(page_placements(instances, monitors), m, 1),
{
    let all = page_placements(instances, monitors);
    let homes = home_placements(instances, monitors);
    let free = free_monitors(homes, monitors.len());
    lemma_placements(instances, monitors);
    lemma_home_placements(instances, monitors);
    lemma_free_monitors(homes, monitors.len());
    law_every_instance_is_placed_once(instances, monitors);
    if k < homes.len() {
        assert(all[k] == homes[k]);
        assert(is_home_placement(instances, monitors, homes[k]));
    }
    let place = k - homes.len();
    assert(place < free.len()) by {
        if place >= free.len() {
            assert((place - free.len()) / (monitors.len() as int) >= 0) by (nonlinear_arith)
                requires
                    place >= free.len(),
                    monitors.len() > 0,
            ;
        }
    }
    assert(free[place] == all[k].monitor);
    if places_monitor(homes, m as usize) {
        let h = choose|h: int| 0 <= h < homes.len() && (#[trigger] homes[h]).monitor == m;
        assert(is_home_placement(instances, monitors, homes[h]));
        assert(all[h] == homes[h]);
    } else {
        assert(free.contains(m as usize));
        let j = choose|j: int| 0 <= j < free.len() && free[j] == m as usize;
        if j >= place {
            assert(free[place] <= free[j]);
        }
        let l = homes.len() + j;
        assert(all[l].monitor == m && all[l].page == 1);
    }
}

/// Where homes are settled and the first page is full, its instances stay where they are.
pub proof fn lemma_first_page_stays(
    instances: Seq<WorkspaceView>,
    monitors: Seq<MonitorView>,
    i: int,
    m: int,
)
    requires
        instances.len() <= usize::MAX,
        0 < monitors.len() <= usize::MAX,
        is_tidy(instances, monitors),
        first_page_is_full(instances, monitors),
        0 <= i < instances.len(),
        host_position(instances[i], monitors) == Some(m),
        instances[i].config.spanning_page == 1,
    ensures
        placement_of(page_placements(instances, monitors), i).monitor == m,
        placement_of(page_placements(instances, monitors), i).page == 1,
    decreases m, 1int,
{
    let all = page_placements(instances, monitors);
    let k = lemma_placement_exists(instances, monitors, i);
    assert(0 <= m < monitors.len() && (is_away(instances[i].home, monitors) || instances[i].home
        == Some(MonitorIdentityView::of(monitors, m)))) by {
        reveal(is_tidy);
    }
    if is_away(instances[i].home, monitors) {
        assert(!all[k].is_home) by {
            if all[k].is_home {
                assert(instances[i].home->0.matches(monitors, all[k].monitor as int) is None);
            }
        }
        lemma_page_is_positive(instances, monitors, k);
        if all[k].page == 1 && all[k].monitor < m {
            // The slot belongs to the instance that is on that monitor.
            let n = all[k].monitor as int;
            assert(hosts_first_page(instances, monitors, n));
            let j = choose|j: int|
                0 <= j < instances.len() && host_position(#[trigger] instances[j], monitors)
                    == Some(n) && instances[j].config.spanning_page == 1;
            lemma_first_page_stays(instances, monitors, j, n);
            let l = lemma_placement_exists(instances, monitors, j);
            lemma_different_slots(instances, monitors, k, l);
        } else if all[k].page > 1 || all[k].monitor > m {
            if all[k].page > 1 {
                law_earlier_pages_are_full(instances, monitors, k, m, 1);
            } else {
                lemma_filled_before(instances, monitors, k, m);
            }
            let l = choose|l: int|
                0 <= l < all.len() && (#[trigger] all[l]).monitor == m && all[l].page == 1;
            law_every_instance_is_placed_once(instances, monitors);
            lemma_slot_is_own(instances, monitors, i, m, k, l);
        }
    } else {
        lemma_tidy_home(instances, monitors, i, m);
        law_homes_form_the_first_page(instances, monitors, k);
    }
}

proof fn lemma_page_is_positive(
    instances: Seq<WorkspaceView>,
    monitors: Seq<MonitorView>,
    k: int,
)
    requires
        instances.len() <= usize::MAX,
        0 < monitors.len() <= usize::MAX,
        0 <= k < instances.len(),
    ensures
        page_placements(instances, monitors)[k].page >= 1,
{
    crate::page_placement::lemma_pages_are_compact(instances, monitors);
    law_every_instance_is_placed_once(instances, monitors);
    assert(page_placements(instances, monitors)[k].page >= 1);
}

proof fn lemma_different_slots(
    instances: Seq<WorkspaceView>,
    monitors: Seq<MonitorView>,
    k: int,
    l: int,
)
    requires
        instances.len() <= usize::MAX,
        0 < monitors.len() <= usize::MAX,
        0 <= k < instances.len(),
        0 <= l < instances.len(),
        k != l,
    ensures
        page_placements(instances, monitors)[k].monitor != page_placements(
            instances,
            monitors,
        )[l].monitor || page_placements(instances, monitors)[k].page != page_placements(
            instances,
            monitors,
        )[l].page,
{
    if k < l {
        law_slots_hold_one_instance(instances, monitors, k, l);
    } else {
        law_slots_hold_one_instance(instances, monitors, l, k);
    }
}

/// No other instance takes the slot on the first page of one that is away from home.
proof fn lemma_slot_is_own(
    instances: Seq<WorkspaceView>,
    monitors: Seq<MonitorView>,
    i: int,
    m: int,
    k: int,
    l: int,
)
    requires
        instances.len() <= usize::MAX,
        0 < monitors.len() <= usize::MAX,
        is_tidy(instances, monitors),
        first_page_is_full(instances, monitors),
        0 <= i < instances.len(),
        0 <= m < monitors.len(),
        host_position(instances[i], monitors) == Some(m),
        instances[i].config.spanning_page == 1,
        is_away(instances[i].home, monitors),
        0 <= k < instances.len(),
        0 <= l < instances.len(),
        page_placements(instances, monitors)[k].instance == i,
        !page_placements(instances, monitors)[k].is_home,
        page_placements(instances, monitors)[k].page > 1 || page_placements(
            instances,
            monitors,
        )[k].page == 1 && page_placements(instances, monitors)[k].monitor > m,
        page_placements(instances, monitors)[l].monitor == m,
        page_placements(instances, monitors)[l].page == 1,
    ensures
        page_placements(instances, monitors)[l].instance == i,
    decreases m, 0int,
{
    let all = page_placements(instances, monitors);
    let j = all[l].instance as int;
    law_every_instance_is_placed_once(instances, monitors);
    lemma_placement_of(instances, monitors, l);
    let found = lemma_placement_exists(instances, monitors, j);
    let n = host_position(instances[j], monitors)->0;
    assert(j != i ==> host_position(instances[j], monitors) == Some(n) && 0 <= n < monitors.len()
        && instances[j].config.spanning_page >= 1 && (instances[j].config.spanning_page > 1
        ==> instances[j].home is None || is_away(instances[j].home, monitors)) && (
    instances[j].config.spanning_page == 1 ==> n != m && (is_away(instances[j].home, monitors)
        || instances[j].home == Some(MonitorIdentityView::of(monitors, n))))) by {
        reveal(is_tidy);
    }
    if j == i {
    } else if instances[j].config.spanning_page == 1 && !is_away(instances[j].home, monitors) {
        lemma_tidy_home(instances, monitors, j, n);
    } else if instances[j].config.spanning_page == 1 && n < m {
        lemma_first_page_stays(instances, monitors, j, n);
    } else {
        assert(!all[l].is_home) by {
            if all[l].is_home {
                law_homes_form_the_first_page(instances, monitors, l);
                assert(claim_strength(instances[j], monitors, m) is Some);
                assert(instances[j].home->0.matches(monitors, m) is Some);
            }
        }
        assert(home_at_most(instances[i].home, instances[j].home)) by {
            reveal(is_tidy);
        }
        assert(!orphan_key(instances[j], monitors).at_most(orphan_key(instances[i], monitors)));
        law_orphans_fill_slots_in_order(instances, monitors, k, l);
    }
}

} // verus!
