//! Where homes leave no ties, nothing but the homes decides the assignment of pages.
use vstd::prelude::*;

use crate::monitor::MonitorView;
use crate::page_dependence::{
    excludes, has_claim, is_granted, lemma_claim_order_precedes, lemma_claim_position,
    lemma_grants_exclude_nothing, lemma_refusal, precedes,
};
use crate::page_laws::{lemma_orphan_order, lemma_placements, orphan_order};
use crate::page_placement::{
    claim_order, claim_strength, free_monitors, home_placements, is_claim, is_home_placement,
    lemma_claim_order, lemma_home_placements, page_placements, places_monitor, Claim,
};
use crate::page_stability::{
    lemma_free_monitors_agree, lemma_orders_agree, lemma_origin_is_onto, lemma_placement_exists,
    lemma_placement_of, placement_of,
};
use crate::stable_sort::SortKey;
use crate::workspace::WorkspaceView;

verus! {

/// Whether homes leave no ties: every instance has a home, no two homes have the same index in
/// layouts of the same size, and at each strength no home matches two monitors, and no two homes
/// match the same monitor.
pub open spec fn homes_are_unambiguous(
    instances: Seq<WorkspaceView>,
    monitors: Seq<MonitorView>,
) -> bool {
    &&& forall|i: int| 0 <= i < instances.len() ==> (#[trigger] instances[i]).home is Some
    &&& forall|i: int, j: int|
        0 <= i < j < instances.len() ==> (#[trigger] instances[i]).home->0.monitor_count != (
        #[trigger] instances[j]).home->0.monitor_count || instances[i].home->0.index
            != instances[j].home->0.index
    &&& forall|i: int, m: int, n: int|
        0 <= i < instances.len() && 0 <= m < n < monitors.len() && claim_strength(
            instances[i],
            monitors,
            m,
        ) is Some ==> #[trigger] claim_strength(instances[i], monitors, m)
            != #[trigger] claim_strength(instances[i], monitors, n)
    &&& forall|i: int, j: int, m: int|
        0 <= i < j < instances.len() && 0 <= m < monitors.len() && claim_strength(
            instances[i],
            monitors,
            m,
        ) is Some ==> #[trigger] claim_strength(instances[i], monitors, m)
            != #[trigger] claim_strength(instances[j], monitors, m)
}

/// Whether `later` holds instances with the same homes, possibly listed in another order, on
/// other hosts or on other pages: `origin` gives the former position of each.
pub open spec fn have_homes_of(
    instances: Seq<WorkspaceView>,
    later: Seq<WorkspaceView>,
    origin: Seq<int>,
) -> bool {
    &&& later.len() == instances.len()
    &&& origin.len() == instances.len()
    &&& origin.no_duplicates()
    &&& forall|j: int| 0 <= j < origin.len() ==> 0 <= #[trigger] origin[j] < instances.len()
    &&& forall|j: int|
        0 <= j < later.len() ==> (#[trigger] later[j]).home == instances[origin[j]].home
}

/// Strength of a claim.
spec fn strength_of(
    instances: Seq<WorkspaceView>,
    monitors: Seq<MonitorView>,
    claim: Claim,
) -> int {
    claim_strength(
        instances[claim.instance as int],
        monitors,
        claim.monitor as int,
    )->0.spec_strength()
}

/// Claims that exclude each other differ in strength.
proof fn lemma_strengths_differ(
    instances: Seq<WorkspaceView>,
    monitors: Seq<MonitorView>,
    a: Claim,
    b: Claim,
)
    requires
        homes_are_unambiguous(instances, monitors),
        has_claim(instances, monitors, a),
        has_claim(instances, monitors, b),
        excludes(a, b),
    ensures
        strength_of(instances, monitors, a) != strength_of(instances, monitors, b),
{
    let (i, j) = (a.instance as int, b.instance as int);
    let (m, n) = (a.monitor as int, b.monitor as int);
    let s = claim_strength(instances[i], monitors, m);
    let t = claim_strength(instances[j], monitors, n);
    assert(s != t) by {
        if i == j {
            if m < n {
                assert(claim_strength(instances[i], monitors, m) != claim_strength(
                    instances[i],
                    monitors,
                    n,
                ));
            } else {
                assert(claim_strength(instances[i], monitors, n) != claim_strength(
                    instances[i],
                    monitors,
                    m,
                ));
            }
        } else if i < j {
            assert(claim_strength(instances[i], monitors, m) != claim_strength(
                instances[j],
                monitors,
                m,
            ));
        } else {
            assert(claim_strength(instances[j], monitors, m) != claim_strength(
                instances[i],
                monitors,
                m,
            ));
        }
    }
}

/// Whether a claim is excluded by a stronger one that is granted.
spec fn is_overruled_by(
    instances: Seq<WorkspaceView>,
    monitors: Seq<MonitorView>,
    claim: Claim,
    other: Claim,
) -> bool {
    &&& has_claim(instances, monitors, other)
    &&& excludes(other, claim)
    &&& strength_of(instances, monitors, other) > strength_of(instances, monitors, claim)
    &&& is_granted(home_placements(instances, monitors), other)
}

/// A claim that isn't granted is excluded by a stronger one that is.
proof fn lemma_overruled(
    instances: Seq<WorkspaceView>,
    monitors: Seq<MonitorView>,
    claim: Claim,
) -> (other: Claim)
    requires
        instances.len() <= usize::MAX,
        monitors.len() <= usize::MAX,
        homes_are_unambiguous(instances, monitors),
        has_claim(instances, monitors, claim),
        !is_granted(home_placements(instances, monitors), claim),
    ensures
        is_overruled_by(instances, monitors, claim, other),
{
    let order = claim_order(instances, monitors);
    let homes = home_placements(instances, monitors);
    let p = lemma_claim_position(instances, monitors, claim);
    lemma_refusal(instances, order, p);
    let q = choose|q: int|
        0 <= q < p && excludes((#[trigger] order[q]).item, order[p].item) && is_granted(
            homes,
            order[q].item,
        );
    let other = order[q].item;
    lemma_claim_order(instances, monitors);
    assert(is_claim(instances, monitors, order[q]));
    lemma_claim_order_precedes(instances, monitors);
    assert(precedes(instances, monitors, order[q].item, order[p].item));
    lemma_strengths_differ(instances, monitors, other, claim);
    other
}

/// A claim as it was before the instances were listed in another order.
spec fn original(origin: Seq<int>, claim: Claim) -> Claim {
    Claim { instance: origin[claim.instance as int] as usize, monitor: claim.monitor }
}

/// The same claims are granted, in whatever order the instances are listed.
proof fn lemma_same_grants_permuted(
    instances: Seq<WorkspaceView>,
    monitors: Seq<MonitorView>,
    later: Seq<WorkspaceView>,
    origin: Seq<int>,
    claim: Claim,
)
    requires
        instances.len() <= usize::MAX,
        monitors.len() <= usize::MAX,
        homes_are_unambiguous(instances, monitors),
        homes_are_unambiguous(later, monitors),
        have_homes_of(instances, later, origin),
        has_claim(later, monitors, claim),
    ensures
        is_granted(home_placements(later, monitors), claim) == is_granted(
            home_placements(instances, monitors),
            original(origin, claim),
        ),
    decreases 3 - strength_of(later, monitors, claim),
{
    let (homes_a, homes_b) = (home_placements(instances, monitors), home_placements(
        later,
        monitors,
    ));
    let before = original(origin, claim);
    lemma_home_placements(instances, monitors);
    lemma_home_placements(later, monitors);
    assert(later[claim.instance as int].home == instances[origin[claim.instance as int]].home);
    assert(has_claim(instances, monitors, before));
    if is_granted(homes_a, before) && !is_granted(homes_b, claim) {
        let other = lemma_overruled(later, monitors, claim);
        assert(later[other.instance as int].home == instances[origin[other.instance as int]].home);
        lemma_same_grants_permuted(instances, monitors, later, origin, other);
        assert(excludes(original(origin, other), before)) by {
            if other.instance != claim.instance {
                assert(origin[other.instance as int] != origin[claim.instance as int]);
            }
        }
        lemma_grants_exclude_nothing(homes_a, original(origin, other), before);
    }
    if !is_granted(homes_a, before) && is_granted(homes_b, claim) {
        let stronger = lemma_overruled(instances, monitors, before);
        lemma_origin_is_onto(origin, instances.len(), stronger.instance as int);
        let j = choose|j: int| 0 <= j < origin.len() && origin[j] == stronger.instance as int;
        let other = Claim { instance: j as usize, monitor: stronger.monitor };
        assert(later[j].home == instances[origin[j]].home);
        assert(original(origin, other) == stronger);
        lemma_same_grants_permuted(instances, monitors, later, origin, other);
        lemma_grants_exclude_nothing(homes_b, other, claim);
    }
}

/// An instance gets the same home monitor, if any, in whatever order the instances are listed.
proof fn lemma_same_home_permuted(
    instances: Seq<WorkspaceView>,
    monitors: Seq<MonitorView>,
    later: Seq<WorkspaceView>,
    origin: Seq<int>,
    j: int,
)
    requires
        instances.len() <= usize::MAX,
        0 < monitors.len() <= usize::MAX,
        homes_are_unambiguous(instances, monitors),
        homes_are_unambiguous(later, monitors),
        have_homes_of(instances, later, origin),
        0 <= j < later.len(),
    ensures
        ({
            let before = placement_of(page_placements(instances, monitors), origin[j]);
            let after = placement_of(page_placements(later, monitors), j);
            &&& before.is_home == after.is_home
            &&& before.is_home ==> before.monitor == after.monitor && before.page == after.page
        }),
{
    let (all_a, all_b) = (page_placements(instances, monitors), page_placements(later, monitors));
    let (homes_a, homes_b) = (home_placements(instances, monitors), home_placements(
        later,
        monitors,
    ));
    lemma_placements(instances, monitors);
    lemma_placements(later, monitors);
    lemma_home_placements(instances, monitors);
    lemma_home_placements(later, monitors);
    let k = lemma_placement_exists(instances, monitors, origin[j]);
    let l = lemma_placement_exists(later, monitors, j);
    assert(later[j].home == instances[origin[j]].home);
    if all_a[k].is_home {
        let claim = Claim { instance: j as usize, monitor: all_a[k].monitor };
        assert(all_a[k] == homes_a[k]);
        assert(is_granted(homes_a, original(origin, claim)));
        lemma_same_grants_permuted(instances, monitors, later, origin, claim);
        let h = choose|h: int|
            0 <= h < homes_b.len() && (#[trigger] homes_b[h]).instance == claim.instance
                && homes_b[h].monitor == claim.monitor;
        assert(all_b[h] == homes_b[h]);
        assert(is_home_placement(later, monitors, homes_b[h]));
        lemma_placement_of(later, monitors, h);
    }
    if all_b[l].is_home {
        let claim = Claim { instance: j as usize, monitor: all_b[l].monitor };
        assert(all_b[l] == homes_b[l]);
        assert(is_granted(homes_b, claim));
        lemma_same_grants_permuted(instances, monitors, later, origin, claim);
        let before = original(origin, claim);
        let h = choose|h: int|
            0 <= h < homes_a.len() && (#[trigger] homes_a[h]).instance == before.instance
                && homes_a[h].monitor == before.monitor;
        assert(all_a[h] == homes_a[h]);
        assert(is_home_placement(instances, monitors, homes_a[h]));
        lemma_placement_of(instances, monitors, h);
    }
}

/// The same monitors are free, in whatever order the instances are listed.
proof fn lemma_same_free_permuted(
    instances: Seq<WorkspaceView>,
    monitors: Seq<MonitorView>,
    later: Seq<WorkspaceView>,
    origin: Seq<int>,
)
    requires
        instances.len() <= usize::MAX,
        0 < monitors.len() <= usize::MAX,
        homes_are_unambiguous(instances, monitors),
        homes_are_unambiguous(later, monitors),
        have_homes_of(instances, later, origin),
    ensures
        free_monitors(home_placements(instances, monitors), monitors.len()) == free_monitors(
            home_placements(later, monitors),
            monitors.len(),
        ),
{
    let (all_a, all_b) = (page_placements(instances, monitors), page_placements(later, monitors));
    let (homes_a, homes_b) = (home_placements(instances, monitors), home_placements(
        later,
        monitors,
    ));
    lemma_placements(instances, monitors);
    lemma_placements(later, monitors);
    lemma_home_placements(instances, monitors);
    lemma_home_placements(later, monitors);
    assert forall|m: usize| m < monitors.len() implies (#[trigger] places_monitor(homes_a, m))
        == places_monitor(homes_b, m) by {
        if places_monitor(homes_a, m) {
            let h = choose|h: int| 0 <= h < homes_a.len() && (#[trigger] homes_a[h]).monitor == m;
            assert(all_a[h] == homes_a[h]);
            assert(is_home_placement(instances, monitors, homes_a[h]));
            lemma_placement_of(instances, monitors, h);
            lemma_origin_is_onto(origin, instances.len(), all_a[h].instance as int);
            let i = choose|i: int| 0 <= i < origin.len() && origin[i] == all_a[h].instance as int;
            lemma_same_home_permuted(instances, monitors, later, origin, i);
            let o = lemma_placement_exists(later, monitors, i);
            assert(all_b[o] == homes_b[o]);
        }
        if places_monitor(homes_b, m) {
            let h = choose|h: int| 0 <= h < homes_b.len() && (#[trigger] homes_b[h]).monitor == m;
            assert(all_b[h] == homes_b[h]);
            assert(is_home_placement(later, monitors, homes_b[h]));
            lemma_placement_of(later, monitors, h);
            let i = all_b[h].instance as int;
            lemma_same_home_permuted(instances, monitors, later, origin, i);
            let o = lemma_placement_exists(instances, monitors, origin[i]);
            assert(all_a[o] == homes_a[o]);
        }
    }
    lemma_free_monitors_agree(homes_a, homes_b, monitors.len());
}

/// The part of an orphan's place that its home decides.
spec fn home_key(instance: WorkspaceView) -> SortKey {
    SortKey {
        a: -instance.home->0.monitor_count as i128,
        b: instance.home->0.index as i128,
        c: 0,
        d: 0,
    }
}

/// Where homes leave no ties, they alone decide the assignment of pages: instances with the same
/// homes are assigned the same monitors and pages, in whatever order they are listed, whatever
/// monitors they are on, and whatever pages they are part of.
pub proof fn law_unambiguous_homes_decide(
    instances: Seq<WorkspaceView>,
    monitors: Seq<MonitorView>,
    later: Seq<WorkspaceView>,
    origin: Seq<int>,
    j: int,
)
    requires
        instances.len() <= usize::MAX,
        0 < monitors.len() <= usize::MAX,
        homes_are_unambiguous(instances, monitors),
        have_homes_of(instances, later, origin),
        0 <= j < later.len(),
    ensures
        placement_of(page_placements(later, monitors), j).monitor == placement_of(
            page_placements(instances, monitors),
            origin[j],
        ).monitor,
        placement_of(page_placements(later, monitors), j).page == placement_of(
            page_placements(instances, monitors),
            origin[j],
        ).page,
        placement_of(page_placements(later, monitors), j).is_home == placement_of(
            page_placements(instances, monitors),
            origin[j],
        ).is_home,
{
    let before = page_placements(instances, monitors);
    let after = page_placements(later, monitors);
    let homes_before = home_placements(instances, monitors);
    let homes_after = home_placements(later, monitors);
    lemma_still_unambiguous(instances, monitors, later, origin);
    let k = lemma_placement_exists(instances, monitors, origin[j]);
    let n = lemma_placement_exists(later, monitors, j);
    lemma_placements(instances, monitors);
    lemma_placements(later, monitors);
    lemma_same_home_permuted(instances, monitors, later, origin, j);
    if !before[k].is_home {
        lemma_same_free_permuted(instances, monitors, later, origin);
        lemma_orphan_order(instances, monitors);
        lemma_orphan_order(later, monitors);
        let old_order = orphan_order(instances, monitors);
        let new_order = orphan_order(later, monitors);
        assert(old_order.len() == new_order.len());
        // The former positions of the orphans, in their former and in their new order.
        let a = Seq::new(old_order.len(), |i: int| old_order[i].item as int);
        let b = Seq::new(new_order.len(), |i: int| origin[new_order[i].item as int]);
        let keys = |i: int| home_key(instances[i]);
        assert(a.no_duplicates()) by {
            assert forall|i: int, l: int|
                0 <= i < a.len() && 0 <= l < a.len() && i != l implies a[i] != a[l] by {
                if i < l {
                    assert(old_order[i].item != old_order[l].item);
                } else {
                    assert(old_order[l].item != old_order[i].item);
                }
            }
        }
        assert(b.no_duplicates()) by {
            assert forall|i: int, l: int|
                0 <= i < b.len() && 0 <= l < b.len() && i != l implies b[i] != b[l] by {
                if i < l {
                    assert(new_order[i].item != new_order[l].item);
                } else {
                    assert(new_order[l].item != new_order[i].item);
                }
            }
        }
        assert forall|i: int| 0 <= i < a.len() implies b.contains(#[trigger] a[i]) by {
            let o = homes_before.len() + i;
            lemma_placement_of(instances, monitors, o);
            assert(before[o].instance == old_order[i].item);
            lemma_origin_is_onto(origin, instances.len(), a[i]);
            let l = choose|l: int| 0 <= l < origin.len() && origin[l] == a[i];
            lemma_same_home_permuted(instances, monitors, later, origin, l);
            let p = lemma_placement_exists(later, monitors, l);
            let at = p - homes_after.len();
            assert(after[p].instance == new_order[at].item);
            assert(b[at] == a[i]);
        }
        assert forall|i: int| 0 <= i < b.len() implies a.contains(#[trigger] b[i]) by {
            let o = homes_after.len() + i;
            lemma_placement_of(later, monitors, o);
            assert(after[o].instance == new_order[i].item);
            let l = new_order[i].item as int;
            lemma_same_home_permuted(instances, monitors, later, origin, l);
            let p = lemma_placement_exists(instances, monitors, origin[l]);
            let at = p - homes_before.len();
            assert(before[p].instance == old_order[at].item);
            assert(a[at] == b[i]);
        }
        assert forall|i: int, l: int| 0 <= i < l < a.len() implies !keys(#[trigger] a[l]).at_most(
            keys(#[trigger] a[i]),
        ) by {
            assert(old_order[i].key.at_most(old_order[l].key));
            let (x, y) = (a[i], a[l]);
            assert(x != y);
            if x < y {
                assert(instances[x].home->0.monitor_count != instances[y].home->0.monitor_count
                    || instances[x].home->0.index != instances[y].home->0.index);
            } else {
                assert(instances[y].home->0.monitor_count != instances[x].home->0.monitor_count
                    || instances[y].home->0.index != instances[x].home->0.index);
            }
        }
        assert forall|i: int, l: int| 0 <= i < l < b.len() implies keys(#[trigger] b[i]).at_most(
            keys(#[trigger] b[l]),
        ) by {
            assert(new_order[i].key.at_most(new_order[l].key));
            let (x, y) = (new_order[i].item as int, new_order[l].item as int);
            assert(later[x].home == instances[origin[x]].home);
            assert(later[y].home == instances[origin[y]].home);
            assert(later[x].home is Some && later[y].home is Some);
        }
        let at = k - homes_before.len();
        assert(before[k].instance == old_order[at].item);
        lemma_orders_agree(a, b, keys, at);
        assert(a[at] == b[at]);
        assert(new_order[at].item == j);
        let o = homes_after.len() + at;
        lemma_placement_of(later, monitors, o);
        assert(after[o].instance == j);
    }
}

/// Homes leave no ties in whatever order their instances are listed.
proof fn lemma_still_unambiguous(
    instances: Seq<WorkspaceView>,
    monitors: Seq<MonitorView>,
    later: Seq<WorkspaceView>,
    origin: Seq<int>,
)
    requires
        homes_are_unambiguous(instances, monitors),
        have_homes_of(instances, later, origin),
    ensures
        homes_are_unambiguous(later, monitors),
{
    assert forall|i: int| 0 <= i < later.len() implies (#[trigger] later[i]).home is Some by {
        assert(instances[origin[i]].home is Some);
    }
    assert forall|i: int, j: int| 0 <= i < j < later.len() implies (
    #[trigger] later[i]).home->0.monitor_count != (#[trigger] later[j]).home->0.monitor_count
        || later[i].home->0.index != later[j].home->0.index by {
        let (x, y) = (origin[i], origin[j]);
        assert(x != y);
        if x < y {
            assert(instances[x].home->0.monitor_count != instances[y].home->0.monitor_count
                || instances[x].home->0.index != instances[y].home->0.index);
        } else {
            assert(instances[y].home->0.monitor_count != instances[x].home->0.monitor_count
                || instances[y].home->0.index != instances[x].home->0.index);
        }
    }
    assert forall|i: int, m: int| 0 <= i < later.len() implies #[trigger] claim_strength(
        later[i],
        monitors,
        m,
    ) == claim_strength(instances[origin[i]], monitors, m) by {
        assert(later[i].home == instances[origin[i]].home);
    }
    assert forall|i: int, m: int, n: int|
        0 <= i < later.len() && 0 <= m < n < monitors.len() && claim_strength(
            later[i],
            monitors,
            m,
        ) is Some implies #[trigger] claim_strength(later[i], monitors, m)
        != #[trigger] claim_strength(later[i], monitors, n) by {
        assert(claim_strength(instances[origin[i]], monitors, m) != claim_strength(
            instances[origin[i]],
            monitors,
            n,
        ));
    }
    assert forall|i: int, j: int, m: int|
        0 <= i < j < later.len() && 0 <= m < monitors.len() && claim_strength(
            later[i],
            monitors,
            m,
        ) is Some implies #[trigger] claim_strength(later[i], monitors, m)
        != #[trigger] claim_strength(later[j], monitors, m) by {
        let (x, y) = (origin[i], origin[j]);
        assert(x != y);
        if x < y {
            assert(claim_strength(instances[x], monitors, m) != claim_strength(
                instances[y],
                monitors,
                m,
            ));
        } else if claim_strength(instances[y], monitors, m) is Some {
            assert(claim_strength(instances[y], monitors, m) != claim_strength(
                instances[x],
                monitors,
                m,
            ));
        }
    }
}

} // verus!
