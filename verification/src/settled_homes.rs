//! Groups whose instances are on the first page of their home, or without a home that is
//! connected, and how distributing instances settles them.
use vstd::prelude::*;

use crate::first_page_placement::{
    claims_are_granted, home_at_most, is_away, is_tidy, law_unrivalled_claims_are_granted,
    lemma_tidy_claims_are_granted,
};
use crate::monitor::MonitorView;
use crate::monitor_identity::MonitorIdentityView;
use crate::page_laws::{
    law_earlier_pages_are_full, law_homes_form_the_first_page, law_orphans_fill_slots_in_order,
    law_slots_hold_one_instance, slot_before,
};
use crate::page_placement::{
    claim_strength, host_position, orphan_key, page_placements, PagePlacement,
};
use crate::page_stability::{lemma_monitor_position_exact, lemma_placement_of};
use crate::repage_laws::{
    are_instances, homed_view, host_of, in_group, is_instance, is_pass, is_placed_by, is_plan,
    others_stay, plan_holds, same_instances, value_of,
};
use crate::repage_spanning_desktops::MemberView;
use crate::wm_state::{same_layout, same_screen, StateView};
use crate::workspace::WorkspaceView;
use crate::workspace_map::{found, lemma_found_place, lemma_identity_of_layout};

verus! {

/// Page of an attached instance.
pub open spec fn page_of(monitors: Seq<MonitorView>, id: u128) -> usize {
    value_of(monitors, id).config.spanning_page
}

/// Home of an attached instance.
pub open spec fn home_of(monitors: Seq<MonitorView>, id: u128) -> Option<MonitorIdentityView> {
    value_of(monitors, id).home
}

/// Whether a group has one instance on the first page of a monitor at most, which is at home or
/// without a home that is connected, whether the instances on further pages are without a home
/// that is connected, and whether those away from home are in order.
#[verifier::opaque]
pub open spec fn is_settled(monitors: Seq<MonitorView>, group: Seq<char>) -> bool {
    &&& forall|x: u128| #[trigger]
        is_instance(monitors, x, group) ==> {
            let home = home_of(monitors, x);
            &&& page_of(monitors, x) >= 1
            &&& page_of(monitors, x) == 1 ==> home is None || is_away(home, monitors) || home
                == Some(MonitorIdentityView::of(monitors, host_of(monitors, x)))
            &&& page_of(monitors, x) > 1 ==> home is None || is_away(home, monitors)
        }
    &&& forall|x: u128, y: u128|
        x != y && #[trigger] is_instance(monitors, x, group) && #[trigger] is_instance(
            monitors,
            y,
            group,
        ) && page_of(monitors, x) == 1 && page_of(monitors, y) == 1 ==> host_of(monitors, x)
            != host_of(monitors, y)
    &&& forall|x: u128, y: u128|
        x != y && #[trigger] is_instance(monitors, x, group) && #[trigger] is_instance(
            monitors,
            y,
            group,
        ) && page_of(monitors, x) == 1 && is_away(home_of(monitors, x), monitors) && (page_of(
            monitors,
            y,
        ) > 1 || page_of(monitors, y) == 1 && is_away(home_of(monitors, y), monitors) && host_of(
            monitors,
            x,
        ) < host_of(monitors, y)) ==> home_at_most(home_of(monitors, x), home_of(monitors, y))
}

/// Whether every monitor has an instance of the first page as soon as there is a further page.
#[verifier::opaque]
pub open spec fn fills_first_page(monitors: Seq<MonitorView>, group: Seq<char>) -> bool {
    forall|x: u128, m: int| #[trigger]
        is_instance(monitors, x, group) && page_of(monitors, x) > 1 && 0 <= m < monitors.len()
            ==> #[trigger] has_first_page(monitors, group, m)
}

pub open spec fn has_first_page(monitors: Seq<MonitorView>, group: Seq<char>, m: int) -> bool {
    exists|y: u128| #[trigger]
        is_instance(monitors, y, group) && host_of(monitors, y) == m && page_of(monitors, y) == 1
}

/// Whether the home of an instance matches a monitor. An instance on the first page without a
/// recorded home is at home where it is.
pub open spec fn home_matches(monitors: Seq<MonitorView>, id: u128, monitor: int) -> bool {
    claim_strength(
        homed_view(monitors, host_of(monitors, id), value_of(monitors, id)),
        monitors,
        monitor,
    ) is Some
}

/// Whether no two instances of a group have a home that matches the same monitor.
#[verifier::opaque]
pub open spec fn homes_are_unrivalled(monitors: Seq<MonitorView>, group: Seq<char>) -> bool {
    forall|x: u128, y: u128, m: int|
        x != y && is_instance(monitors, x, group) && is_instance(monitors, y, group) && 0 <= m
            < monitors.len() ==> !(#[trigger] home_matches(monitors, x, m)
            && #[trigger] home_matches(monitors, y, m))
}

/// What a home matches depends on the screens only.
pub proof fn lemma_matches_of_layout(
    a: Seq<MonitorView>,
    b: Seq<MonitorView>,
    home: MonitorIdentityView,
    n: int,
)
    requires
        same_layout(a, b),
        0 <= n < a.len(),
    ensures
        home.matches(a, n) == home.matches(b, n),
{
    assert(same_screen(a[n], b[n]));
}

pub proof fn lemma_away_of_layout(
    a: Seq<MonitorView>,
    b: Seq<MonitorView>,
    home: Option<MonitorIdentityView>,
)
    requires
        same_layout(a, b),
    ensures
        is_away(home, a) == is_away(home, b),
{
    if let Some(home) = home {
        assert forall|n: int| 0 <= n < a.len() implies home.matches(a, n) == home.matches(b, n) by {
            lemma_matches_of_layout(a, b, home, n);
        }
        if is_away(Some(home), a) {
            assert forall|n: int| 0 <= n < b.len() implies (#[trigger] home.matches(
                b,
                n,
            )) is None by {
                assert(home.matches(a, n) is None);
            }
        }
        if is_away(Some(home), b) {
            assert forall|n: int| 0 <= n < a.len() implies (#[trigger] home.matches(
                a,
                n,
            )) is None by {
                assert(home.matches(b, n) is None);
            }
        }
    }
}

/// If all instances were there before, and are the same, they stay settled.
pub proof fn lemma_stays_settled(a: Seq<MonitorView>, b: Seq<MonitorView>, group: Seq<char>)
    requires
        is_settled(a, group),
        same_layout(a, b),
        forall|x: u128| #[trigger] is_instance(b, x, group) ==> found(b, x) == found(a, x),
    ensures
        is_settled(b, group),
{
    reveal(is_settled);
    assert forall|x: u128| #[trigger] is_instance(b, x, group) implies is_instance(a, x, group)
        && page_of(b, x) == page_of(a, x) && home_of(b, x) == home_of(a, x) && host_of(b, x)
        == host_of(a, x) && is_away(home_of(b, x), b) == is_away(home_of(a, x), a)
        && MonitorIdentityView::of(a, host_of(a, x)) == MonitorIdentityView::of(
        b,
        host_of(a, x),
    ) by {
        let at = lemma_found_place(a, x);
        lemma_away_of_layout(a, b, home_of(a, x));
        lemma_identity_of_layout(a, b, host_of(a, x));
    }
}

pub proof fn lemma_still_fills(a: Seq<MonitorView>, b: Seq<MonitorView>, group: Seq<char>)
    requires
        fills_first_page(a, group),
        a.len() == b.len(),
        same_instances(a, b, group),
    ensures
        fills_first_page(b, group),
{
    reveal(fills_first_page);
    assert forall|x: u128, m: int| #[trigger]
        is_instance(b, x, group) && page_of(b, x) > 1 && 0 <= m < b.len() implies
        #[trigger] has_first_page(b, group, m) by {
        assert(found(b, x) == found(a, x));
        assert(is_instance(a, x, group));
        assert(has_first_page(a, group, m));
        let y = choose|y: u128| #[trigger]
            is_instance(a, y, group) && host_of(a, y) == m && page_of(a, y) == 1;
        assert(found(b, y) == found(a, y));
        assert(is_instance(b, y, group));
    }
}

pub proof fn lemma_still_unrivalled(a: Seq<MonitorView>, b: Seq<MonitorView>, group: Seq<char>)
    requires
        homes_are_unrivalled(a, group),
        same_layout(a, b),
        same_instances(a, b, group),
    ensures
        homes_are_unrivalled(b, group),
{
    reveal(homes_are_unrivalled);
    assert forall|x: u128, m: int|
        is_instance(b, x, group) && 0 <= m < b.len() implies is_instance(a, x, group)
        && #[trigger] home_matches(b, x, m) == home_matches(a, x, m) by {
        assert(found(b, x) == found(a, x));
        lemma_home_matches_of_layout(a, b, x, m);
    }
    assert forall|x: u128, y: u128, m: int|
        x != y && is_instance(b, x, group) && is_instance(b, y, group) && 0 <= m
            < b.len() implies !(#[trigger] home_matches(b, x, m) && #[trigger] home_matches(
        b,
        y,
        m,
    )) by {
        assert(home_matches(b, x, m) == home_matches(a, x, m));
        assert(home_matches(b, y, m) == home_matches(a, y, m));
    }
}

proof fn lemma_home_matches_of_layout(a: Seq<MonitorView>, b: Seq<MonitorView>, x: u128, m: int)
    requires
        same_layout(a, b),
        found(a, x) is Some,
        found(a, x) == found(b, x),
        0 <= m < a.len(),
    ensures
        home_matches(a, x, m) == home_matches(b, x, m),
{
    let at = lemma_found_place(a, x);
    lemma_identity_of_layout(a, b, host_of(a, x));
    let homed = homed_view(a, host_of(a, x), value_of(a, x));
    if let Some(home) = homed.home {
        lemma_matches_of_layout(a, b, home, m);
    }
}

/// Where the instances to be placed are.
pub proof fn lemma_pass_host(
    state: StateView,
    next: StateView,
    listed: Seq<MemberView>,
    group: Seq<char>,
    middle: Seq<MonitorView>,
    instances: Seq<WorkspaceView>,
    plan: Seq<PagePlacement>,
    i: int,
)
    requires
        state.is_valid(),
        is_pass(state, next, listed, group, middle, instances, plan),
        0 <= i < instances.len(),
    ensures
        ({
            let a = state.monitors;
            let x = instances[i].id;
            let m = host_of(a, x);
            &&& is_instance(a, x, group)
            &&& 0 <= m < a.len() == middle.len()
            &&& instances[i] == homed_view(a, m, value_of(a, x))
            &&& host_position(instances[i], middle) == Some(m)
            &&& MonitorIdentityView::of(a, m) == MonitorIdentityView::of(middle, m)
        }),
{
    reveal(is_pass);
    reveal(are_instances);
    let a = state.monitors;
    let x = instances[i].id;
    assert(is_instance(a, x, group));
    let at = lemma_found_place(a, x);
    let m = host_of(a, x);
    assert(crate::invariants::is_valid_monitor(a[m]));
    assert(a[m].workspaces[at].monitor == Some(a[m].id));
    assert forall|k: int, l: int| 0 <= k < l < middle.len() implies (#[trigger] middle[k]).id != (
    #[trigger] middle[l]).id by {
        assert(same_screen(a[k], middle[k]));
        assert(same_screen(a[l], middle[l]));
    }
    assert(same_screen(a[m], middle[m]));
    lemma_monitor_position_exact(middle, m, 0);
    lemma_identity_of_layout(a, middle, m);
}

/// If no two homes match the same monitor, all claims are granted.
proof fn lemma_unrivalled_pass(
    state: StateView,
    next: StateView,
    listed: Seq<MemberView>,
    group: Seq<char>,
    middle: Seq<MonitorView>,
    instances: Seq<WorkspaceView>,
    plan: Seq<PagePlacement>,
)
    requires
        state.is_valid(),
        is_pass(state, next, listed, group, middle, instances, plan),
        homes_are_unrivalled(state.monitors, group),
    ensures
        claims_are_granted(instances, middle),
{
    let a = state.monitors;
    assert(instances.len() <= usize::MAX && 0 < middle.len() <= usize::MAX && same_layout(
        a,
        middle,
    ) && are_instances(a, group, instances)) by {
        reveal(is_pass);
    }
    assert forall|i: int, n: int| 0 <= i < instances.len() && 0 <= n < middle.len() implies (
    #[trigger] claim_strength(instances[i], middle, n)) is Some == home_matches(
        a,
        instances[i].id,
        n,
    ) by {
        lemma_pass_host(state, next, listed, group, middle, instances, plan, i);
        if let Some(home) = instances[i].home {
            lemma_matches_of_layout(a, middle, home, n);
        }
    }
    assert forall|i: int, j: int, n: int|
        0 <= i < instances.len() && 0 <= j < instances.len() && i != j && 0 <= n
            < middle.len() implies !((#[trigger] claim_strength(
        instances[i],
        middle,
        n,
    )) is Some && (#[trigger] claim_strength(instances[j], middle, n)) is Some) by {
        lemma_pass_host(state, next, listed, group, middle, instances, plan, i);
        lemma_pass_host(state, next, listed, group, middle, instances, plan, j);
        reveal(are_instances);
        let (x, y) = (instances[i].id, instances[j].id);
        assert(x != y) by {
            if i < j {
                assert(instances[i].id != instances[j].id);
            } else {
                assert(instances[j].id != instances[i].id);
            }
        }
        reveal(homes_are_unrivalled);
        assert(!(home_matches(a, x, n) && home_matches(a, y, n)));
    }
    law_unrivalled_claims_are_granted(instances, middle);
}

/// The instances of a settled group are tidy once their homes are recorded.
pub proof fn lemma_settled_tidy(
    state: StateView,
    next: StateView,
    listed: Seq<MemberView>,
    group: Seq<char>,
    middle: Seq<MonitorView>,
    instances: Seq<WorkspaceView>,
    plan: Seq<PagePlacement>,
)
    requires
        state.is_valid(),
        is_pass(state, next, listed, group, middle, instances, plan),
        is_settled(state.monitors, group),
    ensures
        is_tidy(instances, middle),
{
    let a = state.monitors;
    assert(same_layout(a, middle) && are_instances(a, group, instances)) by {
        reveal(is_pass);
    }
    assert forall|i: int| 0 <= i < instances.len() implies {
        let instance = #[trigger] instances[i];
        let x = instance.id;
        &&& is_instance(a, x, group)
        &&& host_position(instance, middle) == Some(host_of(a, x))
        &&& 0 <= host_of(a, x) < middle.len()
        &&& instance.config.spanning_page == page_of(a, x)
        &&& instance == homed_view(a, host_of(a, x), value_of(a, x))
        &&& MonitorIdentityView::of(a, host_of(a, x)) == MonitorIdentityView::of(
            middle,
            host_of(a, x),
        )
        &&& is_away(instance.home, middle) == is_away(instance.home, a)
        &&& page_of(a, x) >= 1
        &&& page_of(a, x) > 1 ==> instance.home == home_of(a, x) && (instance.home is None
            || is_away(instance.home, a))
        &&& page_of(a, x) == 1 ==> is_away(instance.home, a) && instance.home == home_of(a, x)
            || instance.home == Some(MonitorIdentityView::of(a, host_of(a, x)))
    } by {
        lemma_pass_host(state, next, listed, group, middle, instances, plan, i);
        lemma_away_of_layout(a, middle, instances[i].home);
        reveal(is_settled);
        assert(is_instance(a, instances[i].id, group));
    }
    assert forall|i: int, j: int| 0 <= i < instances.len() && 0 <= j < instances.len() && i
        != j implies (#[trigger] instances[i]).id != (#[trigger] instances[j]).id by {
        reveal(are_instances);
        if i < j {
            assert(instances[i].id != instances[j].id);
        } else {
            assert(instances[j].id != instances[i].id);
        }
    }
    assert forall|i: int, j: int|
        0 <= i < instances.len() && 0 <= j < instances.len() && i != j && (
        #[trigger] instances[i]).config.spanning_page == 1 && (
        #[trigger] instances[j]).config.spanning_page == 1 implies host_position(
        instances[i],
        middle,
    ) != host_position(instances[j], middle) by {
        reveal(is_settled);
        let (x, y) = (instances[i].id, instances[j].id);
        assert(is_instance(a, x, group) && is_instance(a, y, group) && x != y);
    }
    assert forall|i: int, j: int|
        0 <= i < instances.len() && 0 <= j < instances.len() && i != j && (
        #[trigger] instances[i]).config.spanning_page == 1 && is_away(instances[i].home, middle)
            && (((#[trigger] instances[j]).config.spanning_page == 1 && is_away(
            instances[j].home,
            middle,
        ) && host_position(instances[i], middle)->0 < host_position(instances[j], middle)->0)
            || instances[j].config.spanning_page > 1) implies home_at_most(
        instances[i].home,
        instances[j].home,
    ) by {
        let (x, y) = (instances[i].id, instances[j].id);
        assert(is_instance(a, x, group) && is_instance(a, y, group) && x != y);
        lemma_own_home_is_not_away(a, host_of(a, x));
        lemma_own_home_is_not_away(a, host_of(a, y));
        reveal(is_settled);
    }
    reveal(is_tidy);
}

/// A monitor's own identity matches it.
proof fn lemma_own_home_is_not_away(monitors: Seq<MonitorView>, m: int)
    requires
        0 <= m < monitors.len(),
    ensures
        !is_away(Some(MonitorIdentityView::of(monitors, m)), monitors),
{
    let home = MonitorIdentityView::of(monitors, m);
    assert(home.matches(monitors, m) is Some);
}

/// Where a placed instance is, and what its home is.
proof fn lemma_pass_placed(
    state: StateView,
    next: StateView,
    listed: Seq<MemberView>,
    group: Seq<char>,
    middle: Seq<MonitorView>,
    instances: Seq<WorkspaceView>,
    plan: Seq<PagePlacement>,
    x: u128,
) -> (k: int)
    requires
        is_pass(state, next, listed, group, middle, instances, plan),
        claims_are_granted(instances, middle),
        is_instance(next.monitors, x, group),
    ensures
        0 <= k < plan.len() == instances.len(),
        plan[k].workspace == x,
        plan[k].instance < instances.len(),
        host_of(next.monitors, x) == plan[k].monitor,
        page_of(next.monitors, x) == plan[k].page,
        plan[k].page >= 1,
        plan[k].monitor < middle.len(),
        plan[k].is_home ==> plan[k].page == 1 && home_of(next.monitors, x) == Some(
            MonitorIdentityView::of(next.monitors, plan[k].monitor as int),
        ),
        !plan[k].is_home ==> home_of(next.monitors, x) == instances[plan[k].instance as int].home
            && (home_of(next.monitors, x) is None || is_away(
            home_of(next.monitors, x),
            next.monitors,
        )),
{
    reveal(is_pass);
    let (a, c) = (state.monitors, next.monitors);
    assert(is_placed_by(plan, 0, x)) by {
        reveal(others_stay);
    }
    let k = choose|k: int| 0 <= k < plan.len() && (#[trigger] plan[k]).workspace == x;
    let i = plan[k].instance as int;
    reveal(is_plan);
    assert(0 <= i < instances.len() && plan[k].page >= 1 && plan[k].monitor < middle.len());
    reveal(plan_holds);
    let value = value_of(c, plan[k].workspace);
    assert(found(c, plan[k].workspace) == Some((plan[k].monitor as int, value)));
    if plan[k].is_home {
        law_homes_form_the_first_page(instances, middle, k);
        lemma_identity_of_layout(a, c, plan[k].monitor as int);
    } else {
        lemma_placement_of(instances, middle, k);
        assert(value.home == instances[i].home);
        if let Some(home) = instances[i].home {
            assert forall|n: int| 0 <= n < c.len() implies (#[trigger] home.matches(
                c,
                n,
            )) is None by {
                lemma_matches_of_layout(a, middle, home, n);
                lemma_matches_of_layout(a, c, home, n);
                assert(claim_strength(instances[i], middle, n) == home.matches(middle, n));
            }
        }
    }
    k
}

/// Distributing the instances of a group settles it, if all claims are granted.
pub proof fn lemma_granted_pass_settles(
    state: StateView,
    next: StateView,
    listed: Seq<MemberView>,
    group: Seq<char>,
    middle: Seq<MonitorView>,
    instances: Seq<WorkspaceView>,
    plan: Seq<PagePlacement>,
)
    requires
        is_pass(state, next, listed, group, middle, instances, plan),
        claims_are_granted(instances, middle),
    ensures
        is_settled(next.monitors, group),
        fills_first_page(next.monitors, group),
{
    let c = next.monitors;
    assert(instances.len() <= usize::MAX && 0 < middle.len() <= usize::MAX && plan
        == page_placements(instances, middle) && middle.len() == c.len()) by {
        reveal(is_pass);
    }
    assert forall|x: u128| #[trigger] is_instance(c, x, group) implies {
        let home = home_of(c, x);
        &&& page_of(c, x) >= 1
        &&& page_of(c, x) == 1 ==> home is None || is_away(home, c) || home == Some(
            MonitorIdentityView::of(c, host_of(c, x)),
        )
        &&& page_of(c, x) > 1 ==> home is None || is_away(home, c)
    } by {
        let k = lemma_pass_placed(state, next, listed, group, middle, instances, plan, x);
    }
    assert forall|x: u128, y: u128|
        x != y && #[trigger] is_instance(c, x, group) && #[trigger] is_instance(c, y, group)
            && page_of(c, x) == 1 && page_of(c, y) == 1 implies host_of(c, x) != host_of(c, y) by {
        let k = lemma_pass_placed(state, next, listed, group, middle, instances, plan, x);
        let l = lemma_pass_placed(state, next, listed, group, middle, instances, plan, y);
        if k < l {
            law_slots_hold_one_instance(instances, middle, k, l);
        } else {
            law_slots_hold_one_instance(instances, middle, l, k);
        }
    }
    assert forall|x: u128, y: u128|
        x != y && #[trigger] is_instance(c, x, group) && #[trigger] is_instance(c, y, group)
            && page_of(c, x) == 1 && is_away(home_of(c, x), c) && (page_of(c, y) > 1 || page_of(
            c,
            y,
        ) == 1 && is_away(home_of(c, y), c) && host_of(c, x) < host_of(c, y)) implies home_at_most(
        home_of(c, x),
        home_of(c, y),
    ) by {
        let k = lemma_pass_placed(state, next, listed, group, middle, instances, plan, x);
        let l = lemma_pass_placed(state, next, listed, group, middle, instances, plan, y);
        lemma_own_home_is_not_away(c, plan[k].monitor as int);
        lemma_own_home_is_not_away(c, plan[l].monitor as int);
        let (i, j) = (plan[k].instance as int, plan[l].instance as int);
        if !home_at_most(home_of(c, x), home_of(c, y)) {
            assert(!orphan_key(instances[i], middle).at_most(orphan_key(instances[j], middle)));
            law_orphans_fill_slots_in_order(instances, middle, l, k);
            assert(slot_before(plan[l], plan[k]));
        }
    }
    reveal(is_settled);
    assert forall|x: u128, m: int| #[trigger]
        is_instance(c, x, group) && page_of(c, x) > 1 && 0 <= m < c.len() implies
        #[trigger] has_first_page(c, group, m) by {
        let k = lemma_pass_placed(state, next, listed, group, middle, instances, plan, x);
        law_earlier_pages_are_full(instances, middle, k, m, 1);
        let l = choose|l: int|
            0 <= l < plan.len() && (#[trigger] plan[l]).monitor == m && plan[l].page == 1;
        reveal(is_pass);
        reveal(plan_holds);
        let y = plan[l].workspace;
        assert(in_group(value_of(c, y), group));
        assert(is_instance(c, y, group) && host_of(c, y) == m && page_of(c, y) == 1);
    }
    reveal(fills_first_page);
}

/// Distributing the instances of a group settles it, if no two homes match the same monitor. A
/// settled group stays settled.
pub proof fn lemma_pass_settles(
    state: StateView,
    next: StateView,
    listed: Seq<MemberView>,
    group: Seq<char>,
    middle: Seq<MonitorView>,
    instances: Seq<WorkspaceView>,
    plan: Seq<PagePlacement>,
)
    requires
        state.is_valid(),
        is_pass(state, next, listed, group, middle, instances, plan),
        homes_are_unrivalled(state.monitors, group) || is_settled(state.monitors, group),
    ensures
        is_settled(next.monitors, group),
        fills_first_page(next.monitors, group),
{
    if is_settled(state.monitors, group) {
        lemma_settled_tidy(state, next, listed, group, middle, instances, plan);
        assert(instances.len() <= usize::MAX && 0 < middle.len() <= usize::MAX) by {
            reveal(is_pass);
        }
        lemma_tidy_claims_are_granted(instances, middle);
    } else {
        lemma_unrivalled_pass(state, next, listed, group, middle, instances, plan);
    }
    lemma_granted_pass_settles(state, next, listed, group, middle, instances, plan);
}

} // verus!
