//! What the assignment of pages depends on.
use vstd::prelude::*;

use crate::monitor::MonitorView;
use crate::page_laws::{lemma_orphan_order, lemma_placements, orphan_order};
use crate::page_placement::{
    claim_entry, claim_key, claim_order, claim_strength, claims, claims_of, granted, home_placement,
    home_placements, is_claim, is_home_placement, is_matching, lemma_claim_order, lemma_claims,
    lemma_granted, lemma_home_placements, lemma_unplaced, orphan_entries, orphan_key,
    page_placements, places_instance, places_monitor, unplaced, Claim, PagePlacement,
};
use crate::page_stability::{
    lemma_free_monitors_agree, lemma_placement_exists, lemma_placement_of, placement_of,
};
use crate::stable_sort::{comes_before, lemma_sorted_alike, lemma_sorted_origins, Ranked};
use crate::workspace::WorkspaceView;

verus! {

/// Whether two lists of instances have the same homes.
pub open spec fn same_homes(a: Seq<WorkspaceView>, b: Seq<WorkspaceView>) -> bool {
    a.len() == b.len() && forall|i: int| 0 <= i < a.len() ==> (#[trigger] a[i]).home == b[i].home
}

/// Whether an instance has a claim to a monitor.
pub open spec fn has_claim(
    instances: Seq<WorkspaceView>,
    monitors: Seq<MonitorView>,
    claim: Claim,
) -> bool {
    claim.instance < instances.len() && claim.monitor < monitors.len() && claim_strength(
        instances[claim.instance as int],
        monitors,
        claim.monitor as int,
    ) is Some
}

/// Whether only one of two claims can be granted.
pub open spec fn excludes(a: Claim, b: Claim) -> bool {
    a != b && (a.instance == b.instance || a.monitor == b.monitor)
}

/// Whether a claim is listed before another one.
pub open spec fn listed_before(a: Claim, b: Claim) -> bool {
    a.instance < b.instance || a.instance == b.instance && a.monitor < b.monitor
}

/// Whether a claim ranks no lower than another one.
pub open spec fn ranks_first(
    instances: Seq<WorkspaceView>,
    monitors: Seq<MonitorView>,
    a: Claim,
    b: Claim,
) -> bool {
    claim_key(
        instances[a.instance as int],
        a.instance as int,
        monitors,
        a.monitor as int,
    ).at_most(
        claim_key(
            instances[b.instance as int],
            b.instance as int,
            monitors,
            b.monitor as int,
        ),
    )
}

/// Whether any two claims that exclude each other rank alike in two lists of instances.
pub open spec fn claims_rank_alike(
    a: Seq<WorkspaceView>,
    b: Seq<WorkspaceView>,
    monitors: Seq<MonitorView>,
) -> bool {
    forall|c: Claim, d: Claim|
        has_claim(a, monitors, c) && has_claim(a, monitors, d) && listed_before(c, d)
            && #[trigger] excludes(c, d) ==> ranks_first(a, monitors, c, d) == ranks_first(
            b,
            monitors,
            c,
            d,
        )
}

/// Whether any two instances away from their home are ordered alike in two lists of instances.
pub open spec fn orphans_rank_alike(
    a: Seq<WorkspaceView>,
    b: Seq<WorkspaceView>,
    monitors: Seq<MonitorView>,
) -> bool {
    forall|i: int, j: int|
        0 <= i < j < a.len() && !places_instance(home_placements(a, monitors), i as usize)
            && !places_instance(home_placements(a, monitors), j as usize) ==> orphan_key(
            #[trigger] a[i],
            monitors,
        ).at_most(orphan_key(#[trigger] a[j], monitors)) == orphan_key(b[i], monitors).at_most(
            orphan_key(b[j], monitors),
        )
}

/// Whether a claim is considered before another one.
pub open spec fn precedes(
    instances: Seq<WorkspaceView>,
    monitors: Seq<MonitorView>,
    a: Claim,
    b: Claim,
) -> bool {
    if listed_before(a, b) {
        ranks_first(instances, monitors, a, b)
    } else {
        !ranks_first(instances, monitors, b, a)
    }
}

/// Claims are listed by instance, and those of an instance by monitor.
proof fn lemma_claims_listed(
    instances: Seq<WorkspaceView>,
    monitors: Seq<MonitorView>,
    count: nat,
)
    requires
        count <= instances.len() <= usize::MAX,
        monitors.len() <= usize::MAX,
    ensures
        forall|k: int|
            0 <= k < claims(instances, monitors, count).len() ==> (#[trigger] claims(
                instances,
                monitors,
                count,
            )[k]).item.instance < count,
        forall|k: int, l: int|
            0 <= k < l < claims(instances, monitors, count).len() ==> listed_before(
                (#[trigger] claims(instances, monitors, count)[k]).item,
                (#[trigger] claims(instances, monitors, count)[l]).item,
            ),
    decreases count,
{
    if count > 0 {
        let i = count - 1;
        let rest = claims(instances, monitors, i as nat);
        let own = claims_of(instances[i], i, monitors, monitors.len());
        let all = claims(instances, monitors, count);
        lemma_claims_listed(instances, monitors, i as nat);
        lemma_own_claims_listed(instances[i], i, monitors, monitors.len());
        assert(all == rest + own);
        assert forall|k: int| 0 <= k < all.len() implies (#[trigger] all[k]).item.instance
            < count by {
            if k < rest.len() {
                assert(all[k] == rest[k]);
            } else {
                assert(all[k] == own[k - rest.len()]);
            }
        }
        assert forall|k: int, l: int| 0 <= k < l < all.len() implies listed_before(
            (#[trigger] all[k]).item,
            (#[trigger] all[l]).item,
        ) by {
            if l < rest.len() {
                assert(all[k] == rest[k] && all[l] == rest[l]);
            } else if k < rest.len() {
                assert(all[k] == rest[k] && all[l] == own[l - rest.len()]);
            } else {
                assert(all[k] == own[k - rest.len()] && all[l] == own[l - rest.len()]);
            }
        }
    }
}

proof fn lemma_own_claims_listed(
    instance: WorkspaceView,
    at: int,
    monitors: Seq<MonitorView>,
    count: nat,
)
    requires
        0 <= at <= usize::MAX,
        count <= monitors.len() <= usize::MAX,
    ensures
        forall|k: int|
            0 <= k < claims_of(instance, at, monitors, count).len() ==> {
                let claim = (#[trigger] claims_of(instance, at, monitors, count)[k]).item;
                claim.instance == at && claim.monitor < count
            },
        forall|k: int, l: int|
            0 <= k < l < claims_of(instance, at, monitors, count).len() ==> (#[trigger] claims_of(
                instance,
                at,
                monitors,
                count,
            )[k]).item.monitor < (#[trigger] claims_of(
                instance,
                at,
                monitors,
                count,
            )[l]).item.monitor,
    decreases count,
{
    if count > 0 {
        let rest = claims_of(instance, at, monitors, (count - 1) as nat);
        let now = claims_of(instance, at, monitors, count);
        lemma_own_claims_listed(instance, at, monitors, (count - 1) as nat);
        assert forall|k: int| 0 <= k < now.len() implies {
            let claim = (#[trigger] now[k]).item;
            claim.instance == at && claim.monitor < count
        } by {
            if k < rest.len() {
                assert(now[k] == rest[k]);
            }
        }
        assert forall|k: int, l: int| 0 <= k < l < now.len() implies (
        #[trigger] now[k]).item.monitor < (#[trigger] now[l]).item.monitor by {
            assert(now[k] == rest[k]);
            if l < rest.len() {
                assert(now[l] == rest[l]);
            }
        }
    }
}

/// Of two claims, the one that is considered first precedes the other.
pub proof fn lemma_claim_order_precedes(instances: Seq<WorkspaceView>, monitors: Seq<MonitorView>)
    requires
        instances.len() <= usize::MAX,
        monitors.len() <= usize::MAX,
    ensures
        forall|p: int, q: int|
            0 <= p < q < claim_order(instances, monitors).len() ==> (#[trigger] claim_order(
                instances,
                monitors,
            )[p]).item != (#[trigger] claim_order(instances, monitors)[q]).item && precedes(
                instances,
                monitors,
                claim_order(instances, monitors)[p].item,
                claim_order(instances, monitors)[q].item,
            ),
{
    let listed = claims(instances, monitors, instances.len());
    let order = claim_order(instances, monitors);
    lemma_claims(instances, monitors, instances.len());
    lemma_claims_listed(instances, monitors, instances.len());
    crate::stable_sort::lemma_sorting_keeps(listed);
    let origins = lemma_sorted_origins(listed);
    assert forall|p: int, q: int| 0 <= p < q < order.len() implies (#[trigger] order[p]).item != (
    #[trigger] order[q]).item && precedes(instances, monitors, order[p].item, order[q].item) by {
        let (k, l) = (origins[p], origins[q]);
        assert(order[p] == listed[k] && order[q] == listed[l]);
        assert(comes_before(listed, k, l));
        assert(is_claim(instances, monitors, listed[k]));
        assert(is_claim(instances, monitors, listed[l]));
        if k < l {
            assert(listed_before(listed[k].item, listed[l].item));
        } else {
            assert(listed_before(listed[l].item, listed[k].item));
        }
    }
}

/// Whether a claim is granted.
pub open spec fn is_granted(placements: Seq<PagePlacement>, claim: Claim) -> bool {
    exists|k: int|
        0 <= k < placements.len() && (#[trigger] placements[k]).instance == claim.instance
            && placements[k].monitor == claim.monitor
}

/// What is granted stays granted.
proof fn lemma_granted_stays(
    instances: Seq<WorkspaceView>,
    order: Seq<Ranked<Claim>>,
    some: nat,
    more: nat,
    claim: Claim,
)
    requires
        some <= more <= order.len(),
        is_granted(granted(instances, order, some), claim),
    ensures
        is_granted(granted(instances, order, more), claim),
    decreases more - some,
{
    if some < more {
        let now = granted(instances, order, some);
        let next = granted(instances, order, some + 1);
        let k = choose|k: int|
            0 <= k < now.len() && (#[trigger] now[k]).instance == claim.instance && now[k].monitor
                == claim.monitor;
        assert(next[k] == now[k]);
        lemma_granted_stays(instances, order, some + 1, more, claim);
    }
}

/// A claim is granted, or excluded by a granted one that is considered earlier.
pub proof fn lemma_refusal(instances: Seq<WorkspaceView>, order: Seq<Ranked<Claim>>, p: int)
    requires
        0 <= p < order.len(),
    ensures
        is_granted(granted(instances, order, order.len()), order[p].item) || exists|q: int|
            0 <= q < p && excludes((#[trigger] order[q]).item, order[p].item) && is_granted(
                granted(instances, order, order.len()),
                order[q].item,
            ),
{
    let rest = granted(instances, order, p as nat);
    let now = granted(instances, order, (p + 1) as nat);
    let claim = order[p].item;
    lemma_granted(instances, order, p as nat);
    if places_instance(rest, claim.instance) || places_monitor(rest, claim.monitor) {
        let k = if places_instance(rest, claim.instance) {
            choose|k: int| 0 <= k < rest.len() && (#[trigger] rest[k]).instance == claim.instance
        } else {
            choose|k: int| 0 <= k < rest.len() && (#[trigger] rest[k]).monitor == claim.monitor
        };
        let q = choose|q: int|
            0 <= q < p && rest[k] == home_placement(instances, (#[trigger] order[q]).item);
        assert(is_granted(rest, order[q].item));
        lemma_granted_stays(instances, order, p as nat, order.len(), order[q].item);
        if order[q].item != claim {
            assert(excludes(order[q].item, claim));
        }
    } else {
        assert(now[rest.len() as int] == home_placement(instances, claim));
        assert(is_granted(now, claim));
        lemma_granted_stays(instances, order, (p + 1) as nat, order.len(), claim);
    }
}

/// No two granted claims exclude each other.
pub proof fn lemma_grants_exclude_nothing(placements: Seq<PagePlacement>, a: Claim, b: Claim)
    requires
        is_matching(placements),
        is_granted(placements, a),
        is_granted(placements, b),
    ensures
        !excludes(a, b),
{
    let k = choose|k: int|
        0 <= k < placements.len() && (#[trigger] placements[k]).instance == a.instance
            && placements[k].monitor == a.monitor;
    let l = choose|l: int|
        0 <= l < placements.len() && (#[trigger] placements[l]).instance == b.instance
            && placements[l].monitor == b.monitor;
    if k < l {
        assert(placements[k].instance != placements[l].instance);
        assert(placements[k].monitor != placements[l].monitor);
    } else if l < k {
        assert(placements[l].instance != placements[k].instance);
        assert(placements[l].monitor != placements[k].monitor);
    }
}

/// Position at which a claim is considered.
pub proof fn lemma_claim_position(
    instances: Seq<WorkspaceView>,
    monitors: Seq<MonitorView>,
    claim: Claim,
) -> (p: int)
    requires
        instances.len() <= usize::MAX,
        monitors.len() <= usize::MAX,
        has_claim(instances, monitors, claim),
    ensures
        0 <= p < claim_order(instances, monitors).len(),
        claim_order(instances, monitors)[p].item == claim,
{
    let order = claim_order(instances, monitors);
    lemma_claim_order(instances, monitors);
    let entry = claim_entry(instances, monitors, claim.instance as int, claim.monitor as int);
    assert(order.contains(entry));
    choose|p: int| 0 <= p < order.len() && order[p] == entry
}

/// The same claims are granted if those that exclude each other rank alike.
proof fn lemma_same_grants(
    a: Seq<WorkspaceView>,
    b: Seq<WorkspaceView>,
    monitors: Seq<MonitorView>,
    p: int,
)
    requires
        a.len() <= usize::MAX,
        monitors.len() <= usize::MAX,
        same_homes(a, b),
        claims_rank_alike(a, b, monitors),
        0 <= p < claim_order(a, monitors).len(),
    ensures
        is_granted(home_placements(a, monitors), claim_order(a, monitors)[p].item) == is_granted(
            home_placements(b, monitors),
            claim_order(a, monitors)[p].item,
        ),
    decreases p,
{
    let (order_a, order_b) = (claim_order(a, monitors), claim_order(b, monitors));
    let (homes_a, homes_b) = (home_placements(a, monitors), home_placements(b, monitors));
    let claim = order_a[p].item;
    lemma_claim_order(a, monitors);
    lemma_claim_order(b, monitors);
    lemma_home_placements(a, monitors);
    lemma_home_placements(b, monitors);
    lemma_claim_order_precedes(a, monitors);
    lemma_claim_order_precedes(b, monitors);
    assert(is_claim(a, monitors, order_a[p]));
    assert(a[claim.instance as int].home == b[claim.instance as int].home);
    assert(has_claim(b, monitors, claim));
    if is_granted(homes_a, claim) {
        if !is_granted(homes_b, claim) {
            let at = lemma_claim_position(b, monitors, claim);
            lemma_refusal(b, order_b, at);
            let q = choose|q: int|
                0 <= q < at && excludes((#[trigger] order_b[q]).item, order_b[at].item)
                    && is_granted(homes_b, order_b[q].item);
            let other = order_b[q].item;
            assert(is_claim(b, monitors, order_b[q]));
            assert(a[other.instance as int].home == b[other.instance as int].home);
            assert(has_claim(a, monitors, other));
            assert(precedes(b, monitors, other, claim));
            assert(excludes(other, claim) && excludes(claim, other));
            assert(precedes(a, monitors, other, claim));
            let r = lemma_claim_position(a, monitors, other);
            if p < r {
                assert(precedes(a, monitors, order_a[p].item, order_a[r].item));
            }
            lemma_same_grants(a, b, monitors, r);
            lemma_grants_exclude_nothing(homes_a, claim, other);
        }
    } else {
        lemma_refusal(a, order_a, p);
        let q = choose|q: int|
            0 <= q < p && excludes((#[trigger] order_a[q]).item, order_a[p].item) && is_granted(
                homes_a,
                order_a[q].item,
            );
        lemma_same_grants(a, b, monitors, q);
        if is_granted(homes_b, claim) {
            lemma_grants_exclude_nothing(homes_b, order_a[q].item, claim);
        }
    }
}

/// A home placement is a claim that is granted in another list, too.
proof fn lemma_same_home_placement(
    a: Seq<WorkspaceView>,
    b: Seq<WorkspaceView>,
    monitors: Seq<MonitorView>,
    k: int,
)
    requires
        a.len() <= usize::MAX,
        monitors.len() <= usize::MAX,
        same_homes(a, b),
        claims_rank_alike(a, b, monitors),
        0 <= k < home_placements(a, monitors).len(),
    ensures
        is_granted(
            home_placements(b, monitors),
            Claim {
                instance: home_placements(a, monitors)[k].instance,
                monitor: home_placements(a, monitors)[k].monitor,
            },
        ),
{
    let homes = home_placements(a, monitors);
    let claim = Claim { instance: homes[k].instance, monitor: homes[k].monitor };
    lemma_home_placements(a, monitors);
    assert(is_home_placement(a, monitors, homes[k]));
    assert(is_granted(homes, claim));
    let p = lemma_claim_position(a, monitors, claim);
    lemma_same_grants(a, b, monitors, p);
}

/// Ranking alike goes both ways.
proof fn lemma_rank_alike_symmetric(
    a: Seq<WorkspaceView>,
    b: Seq<WorkspaceView>,
    monitors: Seq<MonitorView>,
)
    requires
        same_homes(a, b),
        claims_rank_alike(a, b, monitors),
    ensures
        same_homes(b, a),
        claims_rank_alike(b, a, monitors),
{
    assert forall|i: int| 0 <= i < b.len() implies (#[trigger] b[i]).home == a[i].home by {
        assert(a[i].home == b[i].home);
    }
    assert forall|c: Claim, d: Claim|
        has_claim(b, monitors, c) && has_claim(b, monitors, d) && listed_before(c, d)
            && #[trigger] excludes(c, d) implies ranks_first(b, monitors, c, d) == ranks_first(
        a,
        monitors,
        c,
        d,
    ) by {
        assert(a[c.instance as int].home == b[c.instance as int].home);
        assert(a[d.instance as int].home == b[d.instance as int].home);
        assert(has_claim(a, monitors, c) && has_claim(a, monitors, d));
    }
}

/// The same instances and monitors are taken by home placements.
proof fn lemma_same_homes_taken(
    a: Seq<WorkspaceView>,
    b: Seq<WorkspaceView>,
    monitors: Seq<MonitorView>,
)
    requires
        a.len() <= usize::MAX,
        monitors.len() <= usize::MAX,
        same_homes(a, b),
        claims_rank_alike(a, b, monitors),
    ensures
        forall|i: usize| #[trigger]
            places_instance(home_placements(a, monitors), i) ==> places_instance(
                home_placements(b, monitors),
                i,
            ),
        forall|m: usize| #[trigger]
            places_monitor(home_placements(a, monitors), m) ==> places_monitor(
                home_placements(b, monitors),
                m,
            ),
{
    let (homes_a, homes_b) = (home_placements(a, monitors), home_placements(b, monitors));
    assert forall|i: usize| #[trigger] places_instance(homes_a, i) implies places_instance(
        homes_b,
        i,
    ) by {
        let k = choose|k: int| 0 <= k < homes_a.len() && (#[trigger] homes_a[k]).instance == i;
        lemma_same_home_placement(a, b, monitors, k);
        let claim = Claim { instance: homes_a[k].instance, monitor: homes_a[k].monitor };
        let l = choose|l: int|
            0 <= l < homes_b.len() && (#[trigger] homes_b[l]).instance == claim.instance
                && homes_b[l].monitor == claim.monitor;
        assert(homes_b[l].instance == i);
    }
    assert forall|m: usize| #[trigger] places_monitor(homes_a, m) implies places_monitor(
        homes_b,
        m,
    ) by {
        let k = choose|k: int| 0 <= k < homes_a.len() && (#[trigger] homes_a[k]).monitor == m;
        lemma_same_home_placement(a, b, monitors, k);
        let claim = Claim { instance: homes_a[k].instance, monitor: homes_a[k].monitor };
        let l = choose|l: int|
            0 <= l < homes_b.len() && (#[trigger] homes_b[l]).instance == claim.instance
                && homes_b[l].monitor == claim.monitor;
        assert(homes_b[l].monitor == m);
    }
}

/// The unplaced instances depend on which instances have a placement only.
proof fn lemma_unplaced_agree(a: Seq<PagePlacement>, b: Seq<PagePlacement>, count: nat)
    requires
        count <= usize::MAX,
        forall|i: usize| #[trigger] places_instance(a, i) == places_instance(b, i),
    ensures
        unplaced(a, count) == unplaced(b, count),
    decreases count,
{
    if count > 0 {
        lemma_unplaced_agree(a, b, (count - 1) as nat);
        assert(places_instance(a, (count - 1) as usize) == places_instance(
            b,
            (count - 1) as usize,
        ));
    }
}

/// The assignment of pages depends on the homes of the instances. Where instances are hosted,
/// and on which pages they are, matters only as far as it decides between claims of the same
/// strength, and between instances away from home whose homes are alike or missing: two lists
/// with the same homes in which these rank alike are assigned the same monitors and pages.
pub proof fn law_assignment_depends_on_homes(
    a: Seq<WorkspaceView>,
    b: Seq<WorkspaceView>,
    monitors: Seq<MonitorView>,
    i: int,
)
    requires
        a.len() <= usize::MAX,
        0 < monitors.len() <= usize::MAX,
        same_homes(a, b),
        claims_rank_alike(a, b, monitors),
        orphans_rank_alike(a, b, monitors),
        0 <= i < a.len(),
    ensures
        placement_of(page_placements(a, monitors), i).monitor == placement_of(
            page_placements(b, monitors),
            i,
        ).monitor,
        placement_of(page_placements(a, monitors), i).page == placement_of(
            page_placements(b, monitors),
            i,
        ).page,
        placement_of(page_placements(a, monitors), i).is_home == placement_of(
            page_placements(b, monitors),
            i,
        ).is_home,
{
    let (all_a, all_b) = (page_placements(a, monitors), page_placements(b, monitors));
    let (homes_a, homes_b) = (home_placements(a, monitors), home_placements(b, monitors));
    lemma_rank_alike_symmetric(a, b, monitors);
    lemma_same_homes_taken(a, b, monitors);
    lemma_same_homes_taken(b, a, monitors);
    lemma_placements(a, monitors);
    lemma_placements(b, monitors);
    lemma_home_placements(a, monitors);
    lemma_home_placements(b, monitors);
    let k = lemma_placement_exists(a, monitors, i);
    let l = lemma_placement_exists(b, monitors, i);
    if all_a[k].is_home {
        assert(all_a[k] == homes_a[k]);
        lemma_same_home_placement(a, b, monitors, k);
        let claim = Claim { instance: homes_a[k].instance, monitor: homes_a[k].monitor };
        let j = choose|j: int|
            0 <= j < homes_b.len() && (#[trigger] homes_b[j]).instance == claim.instance
                && homes_b[j].monitor == claim.monitor;
        assert(all_b[j] == homes_b[j]);
        assert(is_home_placement(b, monitors, homes_b[j]));
        lemma_placement_of(b, monitors, j);
    } else {
        lemma_free_monitors_agree(homes_a, homes_b, monitors.len());
        lemma_unplaced_agree(homes_a, homes_b, a.len());
        lemma_unplaced(homes_a, a.len());
        lemma_orphan_order(a, monitors);
        lemma_orphan_order(b, monitors);
        let orphans = unplaced(homes_a, a.len());
        let entries_a = orphan_entries(a, monitors, orphans);
        let entries_b = orphan_entries(b, monitors, orphans);
        assert forall|x: int, y: int| 0 <= x < y < entries_a.len() implies (
        #[trigger] entries_a[x]).key.at_most((#[trigger] entries_a[y]).key)
            == entries_b[x].key.at_most(entries_b[y].key) by {
            let (s, t) = (orphans[x] as int, orphans[y] as int);
            assert(orphans[x] < orphans[y]);
            assert(!places_instance(homes_a, orphans[x]));
            assert(!places_instance(homes_a, orphans[y]));
            assert(entries_a[x].key == orphan_key(a[s], monitors));
            assert(entries_a[y].key == orphan_key(a[t], monitors));
        }
        assert forall|x: int| 0 <= x < entries_a.len() implies (#[trigger] entries_a[x]).item
            == entries_b[x].item by {}
        lemma_sorted_alike(entries_a, entries_b);
        let at = k - homes_a.len();
        let (order_a, order_b) = (orphan_order(a, monitors), orphan_order(b, monitors));
        assert(order_a[at].item == i);
        assert(order_b[at].item == order_a[at].item);
        let j = homes_b.len() + at;
        lemma_placement_of(b, monitors, j);
        assert(all_b[j].instance == i);
    }
}

} // verus!
