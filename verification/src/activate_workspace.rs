//! Activating workspaces and instances of spanning workspaces.
use vstd::prelude::*;
use vstd::string::StringExecFns;

use crate::geometry::TilingDirection;
use crate::invariants::{
    is_spanning, keeps, lemma_attach_valid, lemma_instance_may_span, lemma_keeps_itself,
    lemma_keeps_transitive, lemma_placements_still_fit, lemma_sort_keeps, lemma_sorted_workspaces,
    lemma_unrelated_keeps, may_span,
};
use crate::monitor::{Monitor, MonitorView};
use crate::monitor_identity::{MonitorIdentity, MonitorIdentityView};
use crate::page_key::{key_view, PageKey, PageKeyView};
use crate::text::{decimal, decimal_text, same_text, short_id, short_id_text};
use crate::user_config::{
    borrowed_configs, borrowed_workspaces, inactive_configs, regular_config, spanning_config,
    spanning_configs, suitable_config, UserConfig,
};
use crate::wm_error::{outcome, WmError, WmErrorView};
use crate::wm_event::{WmEvent, WmEventView};
use crate::wm_state::{following_id, lemma_located, same_screen, shows, StateView, WmState};
use crate::workspace::{Workspace, WorkspaceView};
use crate::workspace_config::{WorkspaceConfig, WorkspaceConfigView};

verus! {

broadcast use vstd::string::group_string_axioms;

/// Config of an instance of a spanning workspace page.
pub open spec fn instance_config(
    group: WorkspaceConfigView,
    key: PageKeyView,
    name: Seq<char>,
) -> WorkspaceConfigView {
    let page: usize = if key.page <= 1 {
        1
    } else {
        key.page
    };
    let group_display_name = match group.display_name {
        Some(display_name) => display_name,
        None => group.name,
    };
    WorkspaceConfigView {
        name,
        display_name: Some(
            if page <= 1 {
                group_display_name
            } else {
                group_display_name + seq!['/'] + decimal(page as nat)
            },
        ),
        bind_to_monitor: None,
        keep_alive: group.keep_alive && page <= 1,
        monitors: group.monitors,
        spanning_group: Some(group.name),
        spanning_page: page,
    }
}

/// Derives the config for an instance of a spanning workspace page.
///
/// Every instance of a page shares the same `display_name`, so status bars show the same label
/// on all monitors: the group's display name (falling back to the group name) for the first
/// page, and `<display name>/<page>` for further pages.
///
/// `keep_alive` only applies to the first page; further pages exist only while they hold
/// windows.
pub fn spanning_instance_config(
    group_config: &WorkspaceConfig,
    page_key: &PageKey,
    instance_name: String,
) -> (config: WorkspaceConfig)
    ensures
        config@ == instance_config(group_config@, page_key@, instance_name@),
{
    proof {
        reveal_strlit("/");
    }
    let page: usize = if page_key.page <= 1 {
        1
    } else {
        page_key.page
    };
    let mut display_name = match &group_config.display_name {
        Some(display_name) => display_name.clone(),
        None => group_config.name.clone(),
    };
    if page > 1 {
        let ghost group_name = display_name@;
        display_name.append("/");
        let number = decimal_text(page as u128);
        display_name.append(number.as_str());
        assert(display_name@ =~= group_name + seq!['/'] + decimal(page as nat));
    }
    WorkspaceConfig {
        name: instance_name,
        display_name: Some(display_name),
        bind_to_monitor: None,
        keep_alive: group_config.keep_alive && page <= 1,
        monitors: group_config.monitors,
        spanning_group: Some(group_config.name.clone()),
        spanning_page: page,
    }
}

/// All instances of a page share the same display name, whatever their own names are.
pub proof fn law_instances_share_display_name(
    group: WorkspaceConfigView,
    key: PageKeyView,
    a: Seq<char>,
    b: Seq<char>,
)
    ensures
        instance_config(group, key, a).display_name == instance_config(group, key, b).display_name,
        instance_config(group, key, a).page_key() == instance_config(group, key, b).page_key(),
{
}

/// Instances of further pages aren't kept alive, and those of the first page are if the group
/// is.
pub proof fn law_only_first_page_is_kept_alive(
    group: WorkspaceConfigView,
    key: PageKeyView,
    name: Seq<char>,
)
    ensures
        instance_config(group, key, name).keep_alive <==> group.keep_alive && key.page <= 1,
{
}

/// Whether the name is that of a config other than the group's own.
pub open spec fn is_declared(
    configs: Seq<WorkspaceConfigView>,
    group: Seq<char>,
    name: Seq<char>,
) -> bool {
    exists|i: int|
        0 <= i < configs.len() && (#[trigger] configs[i]).name == name && configs[i].name != group
}

/// Whether a new instance of a page of the group can't have the name.
pub open spec fn is_name_taken(
    state: StateView,
    configs: Seq<WorkspaceConfigView>,
    group: Seq<char>,
    name: Seq<char>,
) -> bool {
    state.workspace_by_name(name) is Some || is_declared(configs, group, name)
}

/// Name of an instance on a monitor, without a number.
pub open spec fn monitor_name(label: Seq<char>, monitor: u128) -> Seq<char> {
    label + seq!['#'] + short_id_text(monitor)
}

/// Name of an instance with a number.
pub open spec fn numbered_name(base: Seq<char>, number: nat) -> Seq<char> {
    base + seq!['-'] + decimal(number)
}

/// Whether a number is the smallest one from 2 on whose name isn't taken.
pub open spec fn is_free_number(
    state: StateView,
    configs: Seq<WorkspaceConfigView>,
    group: Seq<char>,
    base: Seq<char>,
    number: nat,
) -> bool {
    &&& number >= 2
    &&& !is_name_taken(state, configs, group, numbered_name(base, number))
    &&& forall|n: nat|
        2 <= n < number ==> is_name_taken(state, configs, group, #[trigger] numbered_name(base, n))
}

/// Name for a new instance of a page: the label of the page, the label with the monitor's
/// identifier, or a numbered one, whichever isn't taken.
pub open spec fn new_instance_name(
    state: StateView,
    configs: Seq<WorkspaceConfigView>,
    key: PageKeyView,
    monitor: u128,
) -> Seq<char> {
    let base = monitor_name(key.label(), monitor);
    if !is_name_taken(state, configs, key.group, key.label()) {
        key.label()
    } else if !is_name_taken(state, configs, key.group, base) {
        base
    } else {
        numbered_name(
            base,
            choose|n: nat| is_free_number(state, configs, key.group, base, n),
        )
    }
}

fn name_is_taken(state: &WmState, config: &UserConfig, group: &str, name: &str) -> (taken: bool)
    ensures
        taken == is_name_taken(state@, config.value@.workspaces, group@, name@),
{
    if state.workspace_by_name(name).is_some() {
        return true;
    }
    let mut i: usize = 0;
    while i < config.value.workspaces.len()
        invariant
            i <= config.value.workspaces@.len(),
            forall|j: int|
                0 <= j < i ==> !((#[trigger] config.value@.workspaces[j]).name == name@
                    && config.value@.workspaces[j].name != group@),
        decreases config.value.workspaces@.len() - i,
    {
        let declared = config.value.workspaces[i].name.as_str();
        assert(config.value@.workspaces[i as int].name == declared@);
        if same_text(declared, name) && !same_text(declared, group) {
            return true;
        }
        i = i + 1;
    }
    false
}

/// Names of workspaces and configs, one of which every taken name is.
pub open spec fn known_names(state: StateView, configs: Seq<WorkspaceConfigView>) -> Seq<Seq<char>> {
    Seq::new(state.workspaces().len(), |i: int| state.workspaces()[i].config.name) + Seq::new(
        configs.len(),
        |i: int| configs[i].name,
    )
}

proof fn lemma_named(workspaces: Seq<WorkspaceView>, name: Seq<char>, from: int)
    requires
        0 <= from,
    ensures
        crate::wm_state::named(workspaces, name, from) is Some <==> exists|i: int|
            from <= i < workspaces.len() && (#[trigger] workspaces[i]).config.name == name,
    decreases workspaces.len() - from,
{
    if from < workspaces.len() {
        lemma_named(workspaces, name, from + 1);
        if workspaces[from].config.name != name && crate::wm_state::named(
            workspaces,
            name,
            from,
        ) is Some {
            let i = choose|i: int|
                from + 1 <= i < workspaces.len() && (#[trigger] workspaces[i]).config.name == name;
            assert(workspaces[i].config.name == name);
        }
    }
}

proof fn lemma_taken_name_is_known(
    state: StateView,
    configs: Seq<WorkspaceConfigView>,
    group: Seq<char>,
    name: Seq<char>,
)
    requires
        is_name_taken(state, configs, group, name),
    ensures
        known_names(state, configs).contains(name),
{
    let names = known_names(state, configs);
    if state.workspace_by_name(name) is Some {
        lemma_named(state.workspaces(), name, 0);
        let i = choose|i: int|
            0 <= i < state.workspaces().len() && (#[trigger] state.workspaces()[i]).config.name
                == name;
        assert(names[i] == name);
    } else {
        let i = choose|i: int|
            0 <= i < configs.len() && (#[trigger] configs[i]).name == name && configs[i].name
                != group;
        assert(names[state.workspaces().len() + i] == name);
    }
}

/// Different numbers make different names.
proof fn lemma_numbered_names_differ(base: Seq<char>, m: nat, n: nat)
    requires
        numbered_name(base, m) == numbered_name(base, n),
    ensures
        m == n,
{
    let start = (base + seq!['-']).len() as int;
    assert(numbered_name(base, m).skip(start) =~= decimal(m));
    assert(numbered_name(base, n).skip(start) =~= decimal(n));
    crate::text::lemma_decimal_read_back(m);
    crate::text::lemma_decimal_read_back(n);
}

/// Not more numbered names can be taken than names are known.
proof fn lemma_taken_numbers_are_bounded(
    state: StateView,
    configs: Seq<WorkspaceConfigView>,
    group: Seq<char>,
    base: Seq<char>,
    number: nat,
)
    requires
        number >= 2,
        forall|n: nat|
            2 <= n < number ==> is_name_taken(
                state,
                configs,
                group,
                #[trigger] numbered_name(base, n),
            ),
    ensures
        number - 2 <= known_names(state, configs).len(),
{
    let names = known_names(state, configs);
    let taken = Seq::new((number - 2) as nat, |i: int| numbered_name(base, (i + 2) as nat));
    assert forall|i: int, j: int|
        0 <= i < taken.len() && 0 <= j < taken.len() && i != j implies taken[i] != taken[j] by {
        if taken[i] == taken[j] {
            lemma_numbered_names_differ(base, (i + 2) as nat, (j + 2) as nat);
        }
    }
    assert forall|i: int| 0 <= i < taken.len() implies names.contains(#[trigger] taken[i]) by {
        lemma_taken_name_is_known(state, configs, group, taken[i]);
    }
    taken.unique_seq_to_set();
    names.lemma_cardinality_of_set();
    assert forall|name: Seq<char>| taken.to_set().contains(name) implies names.to_set().contains(
        name,
    ) by {
        let i = choose|i: int| 0 <= i < taken.len() && taken[i] == name;
        assert(names.contains(taken[i]));
    }
    vstd::set_lib::lemma_len_subset(taken.to_set(), names.to_set());
}

/// Globally unique name for a new instance of a spanning workspace page.
///
/// The first instance takes the plain page label (e.g. `1` or `1/2`); further instances get a
/// `#<monitor-id>` suffix, uniquified against active workspaces and user-declared config names.
fn instance_name(
    page_key: &PageKey,
    target_monitor: &Monitor,
    state: &WmState,
    config: &UserConfig,
) -> (name: String)
    ensures
        name@ == new_instance_name(
            state@,
            config.value@.workspaces,
            page_key@,
            target_monitor.id,
        ),
{
    proof {
        reveal_strlit("#");
    }
    let group = page_key.group.as_str();
    let label = page_key.to_string();
    if !name_is_taken(state, config, group, label.as_str()) {
        return label;
    }
    let mut base_name = label;
    base_name.append("#");
    let monitor_id = short_id(target_monitor.id);
    base_name.append(monitor_id.as_str());
    assert(base_name@ =~= monitor_name(page_key@.label(), target_monitor.id));
    if !name_is_taken(state, config, group, base_name.as_str()) {
        return base_name;
    }
    let ghost configs = config.value@.workspaces;
    let ghost base = base_name@;
    let active = state.workspaces();
    let active_count = active.len();
    assert(borrowed_workspaces(active@).len() == active_count);
    let declared_count = config.value.workspaces.len();
    let mut suffix: u128 = 2;
    loop
        invariant
            suffix >= 2,
            base == base_name@,
            configs == config.value@.workspaces,
            configs.len() <= usize::MAX,
            state@.workspaces().len() <= usize::MAX,
            group@ == page_key@.group,
            base == monitor_name(page_key@.label(), target_monitor.id),
            is_name_taken(state@, configs, page_key@.group, page_key@.label()),
            is_name_taken(state@, configs, page_key@.group, base),
            forall|n: nat|
                2 <= n < suffix ==> is_name_taken(
                    state@,
                    configs,
                    group@,
                    #[trigger] numbered_name(base, n),
                ),
        decreases known_names(state@, configs).len() + 3 - suffix,
    {
        proof {
            reveal_strlit("-");
            lemma_taken_numbers_are_bounded(state@, configs, group@, base, suffix as nat);
            assert(known_names(state@, configs).len() == state@.workspaces().len()
                + configs.len());
        }
        let mut name = base_name.clone();
        name.append("-");
        let number = decimal_text(suffix);
        name.append(number.as_str());
        assert(name@ =~= numbered_name(base, suffix as nat));
        if !name_is_taken(state, config, group, name.as_str()) {
            proof {
                let n = suffix as nat;
                assert(is_free_number(state@, configs, group@, base, n));
                let m = choose|m: nat| is_free_number(state@, configs, group@, base, m);
                if m < n {
                    assert(is_name_taken(state@, configs, group@, numbered_name(base, m)));
                } else if n < m {
                    assert(is_name_taken(state@, configs, group@, numbered_name(base, n)));
                }
            }
            return name;
        }
        suffix = suffix + 1;
    }
}

/// The name of a new instance is that of no active workspace.
pub proof fn law_instance_names_are_new(
    state: StateView,
    configs: Seq<WorkspaceConfigView>,
    key: PageKeyView,
    monitor: u128,
)
    ensures
        !is_name_taken(
            state,
            configs,
            key.group,
            new_instance_name(state, configs, key, monitor),
        ),
        state.workspace_by_name(new_instance_name(state, configs, key, monitor)) is None,
{
    let base = monitor_name(key.label(), monitor);
    if is_name_taken(state, configs, key.group, key.label()) && is_name_taken(
        state,
        configs,
        key.group,
        base,
    ) {
        lemma_free_number_exists(state, configs, key.group, base, 2);
    }
}

/// Some number from a given one on is the smallest free one, if all smaller ones are taken.
pub proof fn lemma_free_number_exists(
    state: StateView,
    configs: Seq<WorkspaceConfigView>,
    group: Seq<char>,
    base: Seq<char>,
    from: nat,
)
    requires
        from >= 2,
        forall|n: nat|
            2 <= n < from ==> is_name_taken(
                state,
                configs,
                group,
                #[trigger] numbered_name(base, n),
            ),
    ensures
        exists|n: nat| is_free_number(state, configs, group, base, n),
    decreases known_names(state, configs).len() + 3 - from,
{
    lemma_taken_numbers_are_bounded(state, configs, group, base, from);
    if is_name_taken(state, configs, group, numbered_name(base, from)) {
        lemma_free_number_exists(state, configs, group, base, from + 1);
    } else {
        assert(is_free_number(state, configs, group, base, from));
    }
}

/// Tiling direction for a new workspace on a monitor.
pub open spec fn new_tiling_direction(monitor: MonitorView) -> TilingDirection {
    if monitor.bounds.spec_height() > monitor.bounds.spec_width() {
        TilingDirection::Vertical
    } else {
        TilingDirection::Horizontal
    }
}

/// Tiling direction for a new workspace on the given monitor (vertical for portrait monitors).
fn tiling_direction_for(monitor: &Monitor) -> (direction: TilingDirection)
    ensures
        direction == new_tiling_direction(monitor@),
{
    if monitor.bounds.height() > monitor.bounds.width() {
        TilingDirection::Vertical
    } else {
        TilingDirection::Horizontal
    }
}

/// The state with a new workspace at the back of a monitor's focus order.
pub open spec fn with_new_workspace(
    state: StateView,
    configs: Seq<WorkspaceConfigView>,
    config: WorkspaceConfigView,
    monitor: int,
    is_home: bool,
) -> StateView {
    let id = state.next_id;
    let created = WorkspaceView::created(
        id,
        config,
        new_tiling_direction(state.monitors[monitor]),
    );
    let workspace = WorkspaceView {
        home: if is_home {
            Some(MonitorIdentityView::of(state.monitors, monitor))
        } else {
            None
        },
        ..created
    };
    StateView { next_id: following_id(id), ..state }.attach(monitor, workspace).sort(
        monitor,
        configs,
    ).emit(WmEventView::WorkspaceActivated { activated_workspace: id })
}

/// Creating a workspace keeps everything.
pub proof fn lemma_new_workspace_keeps(
    state: StateView,
    configs: Seq<WorkspaceConfigView>,
    config: WorkspaceConfigView,
    monitor: int,
    is_home: bool,
)
    requires
        0 <= monitor < state.monitors.len(),
    ensures
        keeps(state, with_new_workspace(state, configs, config, monitor, is_home), 1),
{
    reveal(keeps);
    let id = state.next_id;
    let counted = StateView { next_id: following_id(id), ..state };
    let created = WorkspaceView::created(id, config, new_tiling_direction(state.monitors[monitor]));
    let workspace = WorkspaceView {
        home: if is_home {
            Some(MonitorIdentityView::of(state.monitors, monitor))
        } else {
            None
        },
        ..created
    };
    let attached = counted.attach(monitor, workspace);
    let sorted = attached.sort(monitor, configs);
    let next = with_new_workspace(state, configs, config, monitor, is_home);
    lemma_keeps_itself(state);
    if state.is_valid() && id + 1 <= u128::MAX {
        assert(state.locate(id) is None) by {
            lemma_located(state.monitors, id, 0);
            if let Some((m, a)) = state.locate(id) {
                assert(state.monitors[m].workspaces[a].id < id);
            }
        }
        assert(counted.is_valid()) by {
            assert forall|m: int, a: int|
                0 <= m < counted.monitors.len() && 0 <= a
                    < counted.monitors[m].workspaces.len() implies (
            #[trigger] counted.monitors[m].workspaces[a]).id < counted.next_id by {
                assert(state.monitors[m].workspaces[a].id < id);
            }
            assert(crate::invariants::is_valid_layout(counted));
        }
        assert(counted.locate(id) is None);
        lemma_attach_valid(counted, monitor, workspace);
        lemma_sort_keeps(attached, monitor, configs);
        lemma_unrelated_keeps(sorted, next);
        lemma_keeps_transitive(attached, sorted, next, 0, 0);
        assert forall|other: u128|
            crate::container::has_nodes(state.nodes, other) && state.locate(other) is Some implies
            #[trigger] next.locate(other) is Some by {
            assert(counted.locate(other) is Some);
            assert(attached.locate(other) is Some);
        }
    }
    assert forall|i: int| #![trigger state.monitors[i]] #![trigger next.monitors[i]]
        0 <= i < state.monitors.len() implies same_screen(
        state.monitors[i],
        next.monitors[i],
    ) by {}
    lemma_sorted_workspaces(configs, attached.monitors[monitor].workspaces);
    assert forall|m: int, a: int|
        0 <= m < next.monitors.len() && 0 <= a < next.monitors[m].workspaces.len() && is_spanning(
            #[trigger] next.monitors[m].workspaces[a],
        ) implies may_span(state, next.monitors[m].workspaces[a].id) by {
        let value = next.monitors[m].workspaces[a];
        if m == monitor {
            let all = attached.monitors[m].workspaces;
            assert(all.contains(value));
            let b = choose|b: int| 0 <= b < all.len() && all[b] == value;
            if b < state.monitors[m].workspaces.len() {
                assert(value == state.monitors[m].workspaces[b]);
                lemma_instance_may_span(state, m, b);
            }
        } else {
            lemma_instance_may_span(state, m, a);
        }
    }
    lemma_placements_still_fit(state, next);
}

/// A new workspace isn't displayed on a monitor that displays another one, and changes nothing
/// about what other monitors display.
pub proof fn law_new_workspace_is_hidden(
    state: StateView,
    configs: Seq<WorkspaceConfigView>,
    config: WorkspaceConfigView,
    monitor: int,
    is_home: bool,
    m: int,
    workspace: u128,
)
    requires
        state.is_valid(),
        state.next_id < u128::MAX,
        0 <= monitor < state.monitors.len(),
        state.monitors[monitor].displayed() is Some,
        0 <= m < state.monitors.len(),
    ensures
        shows(
            with_new_workspace(state, configs, config, monitor, is_home).monitors[m],
            workspace,
        ) <==> shows(state.monitors[m], workspace),
{
    let next = with_new_workspace(state, configs, config, monitor, is_home);
    let old = state.monitors[monitor];
    let new = next.monitors[monitor];
    lemma_new_workspace_keeps(state, configs, config, monitor, is_home);
    crate::invariants::lemma_kept_valid(state, next, 1);
    if m == monitor {
        let first = old.focus_order[0];
        assert(new.focus_order[0] == first);
        assert(crate::invariants::is_valid_monitor(new));
        assert(new.position(new.focus_order[0]) is Some);
        crate::monitor::lemma_workspace_position(new.workspaces, first, 0);
        crate::monitor::lemma_workspace_position(old.workspaces, first, 0);
    }
}

/// Creates a workspace at the back of a monitor's focus order.
fn create_workspace(
    workspace_config: WorkspaceConfig,
    monitor: usize,
    is_home: bool,
    state: &mut WmState,
    config: &UserConfig,
) -> (id: u128)
    requires
        monitor < old(state).monitors@.len(),
    ensures
        id == old(state)@.next_id,
        final(state)@ == with_new_workspace(
            old(state)@,
            config.value@.workspaces,
            workspace_config@,
            monitor as int,
            is_home,
        ),
        keeps(old(state)@, final(state)@, 1),
{
    let id = state.take_id();
    assert(state@.monitors[monitor as int] == state.monitors@[monitor as int]@);
    let direction = tiling_direction_for(&state.monitors[monitor]);
    let mut workspace = Workspace::new(id, workspace_config, direction);
    if is_home {
        workspace.home = Some(MonitorIdentity::of(state.monitors.as_slice(), monitor));
    }
    state.attach_workspace(monitor, workspace);
    state.sort_workspaces(monitor, config);
    state.emit_event(WmEvent::WorkspaceActivated { activated_workspace: id });
    proof {
        lemma_new_workspace_keeps(
            old(state)@,
            config.value@.workspaces,
            workspace_config@,
            monitor as int,
            is_home,
        );
    }
    id
}

/// First config from `from` on with the given name.
pub open spec fn config_named(
    configs: Seq<WorkspaceConfigView>,
    name: Seq<char>,
    from: int,
) -> Option<WorkspaceConfigView>
    decreases configs.len() - from,
{
    if from < 0 || from >= configs.len() {
        None
    } else if configs[from].name == name {
        Some(configs[from])
    } else {
        config_named(configs, name, from + 1)
    }
}

/// Config of the workspace to activate.
pub open spec fn config_to_activate(
    state: StateView,
    configs: Seq<WorkspaceConfigView>,
    name: Option<Seq<char>>,
    monitor: Option<int>,
) -> Result<WorkspaceConfigView, WmErrorView> {
    let inactive = inactive_configs(configs, state.workspaces(), configs.len());
    match name {
        Some(name) => match config_named(inactive, name, 0) {
            Some(config) => Ok(config),
            None => Err(WmErrorView::WorkspaceUnavailable(name)),
        },
        None => match suitable_config(inactive, monitor) {
            Some(config) => Ok(config),
            None => Err(WmErrorView::NoWorkspaceConfig),
        },
    }
}

/// Config that a workspace is activated with. Spanning workspaces become the first page of
/// their group, and ignore the monitor binding.
pub open spec fn activated_config(config: WorkspaceConfigView) -> WorkspaceConfigView {
    if config.monitors is Some {
        WorkspaceConfigView {
            spanning_group: Some(config.name),
            spanning_page: 1,
            bind_to_monitor: None,
            ..config
        }
    } else {
        config
    }
}

/// Monitor that a workspace is activated on.
pub open spec fn monitor_to_activate(
    state: StateView,
    config: WorkspaceConfigView,
    monitor: Option<int>,
) -> Option<int> {
    match monitor {
        Some(monitor) => Some(monitor),
        None => if config.bind_to_monitor is Some && config.bind_to_monitor->0
            < state.monitors.len() {
            Some(config.bind_to_monitor->0 as int)
        } else {
            state.focused_monitor()
        },
    }
}

/// The state with a workspace activated.
pub open spec fn activated(
    state: StateView,
    configs: Seq<WorkspaceConfigView>,
    name: Option<Seq<char>>,
    monitor: Option<int>,
) -> (StateView, Result<(), WmErrorView>) {
    match config_to_activate(state, configs, name, monitor) {
        Ok(found) => {
            let config = activated_config(found);
            match monitor_to_activate(state, config, monitor) {
                Some(target) => (
                    with_new_workspace(state, configs, config, target, found.monitors is Some),
                    Ok(()),
                ),
                None => (state, Err(WmErrorView::NoTargetMonitor)),
            }
        },
        Err(error) => (state, Err(error)),
    }
}

/// Result with a config by value.
pub open spec fn config_outcome(result: Result<WorkspaceConfig, WmError>) -> Result<
    WorkspaceConfigView,
    WmErrorView,
> {
    match result {
        Ok(config) => Ok(config@),
        Err(error) => Err(error@),
    }
}

/// View of an optional name.
pub open spec fn name_view(name: Option<&str>) -> Option<Seq<char>> {
    match name {
        Some(name) => Some(name@),
        None => None,
    }
}

/// Gets config for the workspace to activate.
fn workspace_config(
    workspace_name: Option<&str>,
    target_monitor: Option<usize>,
    state: &WmState,
    config: &UserConfig,
) -> (result: Result<WorkspaceConfig, WmError>)
    ensures
        config_outcome(result) == config_to_activate(
            state@,
            config.value@.workspaces,
            name_view(workspace_name),
            crate::monitor::position_view(target_monitor),
        ),
{
    let active = state.workspaces();
    match workspace_name {
        Some(name) => {
            let inactive = config.inactive_workspace_configs(&active);
            let mut i: usize = 0;
            let ghost candidates = borrowed_configs(inactive@);
            while i < inactive.len()
                invariant
                    i <= inactive@.len(),
                    workspace_name == Some(name),
                    candidates == borrowed_configs(inactive@),
                    candidates == inactive_configs(
                        config.value@.workspaces,
                        state@.workspaces(),
                        config.value@.workspaces.len(),
                    ),
                    config_named(candidates, name@, 0) == config_named(
                        candidates,
                        name@,
                        i as int,
                    ),
                decreases inactive@.len() - i,
            {
                let candidate = inactive[i];
                assert(candidates[i as int] == candidate@);
                if same_text(candidate.name.as_str(), name) {
                    assert(config_named(candidates, name@, 0) == Some(candidate@));
                    return Ok(candidate.clone());
                }
                i = i + 1;
            }
            Err(WmError::WorkspaceUnavailable(name.to_owned()))
        },
        None => {
            let bound = match target_monitor {
                Some(monitor) => config.workspace_config_for_monitor(monitor, &active),
                None => None,
            };
            let found = match bound {
                Some(bound) => Some(bound),
                None => config.next_inactive_workspace_config(&active),
            };
            match found {
                Some(found) => Ok(found.clone()),
                None => Err(WmError::NoWorkspaceConfig),
            }
        },
    }
}

/// Activates a workspace on the target monitor.
///
/// If no workspace name is provided, the first suitable workspace defined in the user's config
/// will be used.
///
/// If no target monitor is provided, the workspace is activated on whichever monitor it is
/// bound to, or the currently focused monitor.
pub fn activate_workspace(
    workspace_name: Option<&str>,
    target_monitor: Option<usize>,
    state: &mut WmState,
    config: &UserConfig,
) -> (result: Result<(), WmError>)
    requires
        target_monitor matches Some(monitor) ==> monitor < old(state).monitors@.len(),
    ensures
        final(state)@ == activated(
            old(state)@,
            config.value@.workspaces,
            name_view(workspace_name),
            crate::monitor::position_view(target_monitor),
        ).0,
        outcome(result) == activated(
            old(state)@,
            config.value@.workspaces,
            name_view(workspace_name),
            crate::monitor::position_view(target_monitor),
        ).1,
        keeps(old(state)@, final(state)@, 1),
{
    let mut workspace_config = match workspace_config(
        workspace_name,
        target_monitor,
        state,
        config,
    ) {
        Ok(workspace_config) => workspace_config,
        Err(error) => {
            proof {
                lemma_keeps_itself(state@);
            }
            return Err(error);
        },
    };
    let is_spanning = workspace_config.monitors.is_some();
    let ghost found = workspace_config@;
    if is_spanning {
        // Instances of spanning workspaces are keyed by their group name, and ignore
        // `bind_to_monitor`. A config activated by name is always the group's first page.
        workspace_config.spanning_group = Some(workspace_config.name.clone());
        workspace_config.spanning_page = 1;
        workspace_config.bind_to_monitor = None;
    }
    assert(workspace_config@ == activated_config(found));
    let bound = match workspace_config.bind_to_monitor {
        Some(index) => if (index as usize) < state.monitors.len() {
            Some(index as usize)
        } else {
            None
        },
        None => None,
    };
    let target = match target_monitor {
        Some(monitor) => Some(monitor),
        None => match bound {
            Some(monitor) => Some(monitor),
            None => state.focused_monitor(),
        },
    };
    match target {
        Some(monitor) => {
            create_workspace(workspace_config, monitor, is_spanning, state, config);
            Ok(())
        },
        None => {
            proof {
                lemma_keeps_itself(state@);
            }
            Err(WmError::NoTargetMonitor)
        },
    }
}

/// The state with an instance of a page created on a monitor.
pub open spec fn spanning_activated(
    state: StateView,
    configs: Seq<WorkspaceConfigView>,
    key: PageKeyView,
    monitor: int,
) -> (StateView, Result<u128, WmErrorView>) {
    match spanning_config(configs, key.group, 0) {
        Some(group) => (
            with_new_workspace(
                state,
                configs,
                instance_config(
                    group,
                    key,
                    new_instance_name(state, configs, key, state.monitors[monitor].id),
                ),
                monitor,
                true,
            ),
            Ok(state.next_id),
        ),
        None => (state, Err(WmErrorView::NoSpanningConfig(key.group))),
    }
}

/// Creates (but does not display) an instance of a spanning workspace page on the given
/// monitor.
///
/// Unlike `activate_workspace`, this doesn't require the group name to be inactive: each
/// monitor gets its own instance with a globally unique name derived from the page label. The
/// monitor becomes the instance's home.
///
/// Returns the identifier of the newly created workspace.
pub fn activate_spanning_instance(
    page_key: &PageKey,
    target_monitor: usize,
    state: &mut WmState,
    config: &UserConfig,
) -> (result: Result<u128, WmError>)
    requires
        target_monitor < old(state).monitors@.len(),
    ensures
        final(state)@ == spanning_activated(
            old(state)@,
            config.value@.workspaces,
            page_key@,
            target_monitor as int,
        ).0,
        outcome(result) == spanning_activated(
            old(state)@,
            config.value@.workspaces,
            page_key@,
            target_monitor as int,
        ).1,
        keeps(old(state)@, final(state)@, 1),
{
    let group_config = match config.spanning_workspace_config(page_key.group.as_str()) {
        Some(group_config) => group_config,
        None => {
            proof {
                lemma_keeps_itself(state@);
            }
            return Err(WmError::NoSpanningConfig(page_key.group.clone()));
        },
    };
    assert(state@.monitors[target_monitor as int] == state.monitors@[target_monitor as int]@);
    let name = instance_name(page_key, &state.monitors[target_monitor], state, config);
    let workspace_config = spanning_instance_config(group_config, page_key, name);
    // The workspace lands at the back of the monitor's focus order, so it isn't displayed
    // until explicitly promoted.
    Ok(create_workspace(workspace_config, target_monitor, true, state, config))
}

/// Page of the focused workspace, if it is one of a configured group.
pub open spec fn focused_page(
    state: StateView,
    configs: Seq<WorkspaceConfigView>,
) -> Option<PageKeyView> {
    match state.focused_workspace() {
        Some(place) => match state.workspace(place).config.page_key() {
            Some(key) => if spanning_config(configs, key.group, 0) is Some {
                Some(key)
            } else {
                None
            },
            None => None,
        },
        None => None,
    }
}

/// Result without its value.
pub open spec fn discard<T>(result: Result<T, WmErrorView>) -> Result<(), WmErrorView> {
    match result {
        Ok(_) => Ok(()),
        Err(error) => Err(error),
    }
}

/// The state with a default workspace activated on a monitor.
pub open spec fn default_activated(
    state: StateView,
    configs: Seq<WorkspaceConfigView>,
    monitor: int,
) -> (StateView, Result<(), WmErrorView>) {
    let groups = spanning_configs(configs, configs.len());
    match focused_page(state, configs) {
        Some(key) => {
            let (next, result) = spanning_activated(state, configs, key, monitor);
            (next, discard(result))
        },
        None => match regular_config(configs, state.workspaces(), monitor) {
            Some(config) => (
                with_new_workspace(state, configs, config, monitor, false),
                Ok(()),
            ),
            None => if groups.len() > 0 {
                let (next, result) = spanning_activated(
                    state,
                    configs,
                    PageKeyView::first(groups[0].name),
                    monitor,
                );
                (next, discard(result))
            } else {
                (state, Err(WmErrorView::NoWorkspaceConfig))
            },
        },
    }
}

/// Activates a workspace on a monitor that has none.
///
/// Prefers an instance of the spanning page that is currently focused (so the monitor joins
/// the displayed virtual desktop), then the first suitable regular workspace config, and
/// finally the first page of the first spanning group.
pub fn activate_default_workspace(
    monitor: usize,
    state: &mut WmState,
    config: &UserConfig,
) -> (result: Result<(), WmError>)
    requires
        monitor < old(state).monitors@.len(),
    ensures
        final(state)@ == default_activated(
            old(state)@,
            config.value@.workspaces,
            monitor as int,
        ).0,
        outcome(result) == default_activated(
            old(state)@,
            config.value@.workspaces,
            monitor as int,
        ).1,
        keeps(old(state)@, final(state)@, 1),
{
    let page_key = match state.focused_workspace() {
        Some((focused_monitor, at)) => {
            assert(state@.workspace((focused_monitor as int, at as int))
                == state.monitors@[focused_monitor as int].workspaces@[at as int]@);
            match state.monitors[focused_monitor].workspaces[at].config.page_key() {
                Some(key) => if config.spanning_workspace_config(key.group.as_str()).is_some() {
                    Some(key)
                } else {
                    None
                },
                None => None,
            }
        },
        None => None,
    };
    assert(key_view(page_key) == focused_page(state@, config.value@.workspaces));
    if let Some(page_key) = page_key {
        return match activate_spanning_instance(&page_key, monitor, state, config) {
            Ok(_) => Ok(()),
            Err(error) => Err(error),
        };
    }
    let active = state.workspaces();
    if let Some(regular) = config.regular_config_for_monitor(monitor, &active) {
        create_workspace(regular.clone(), monitor, false, state, config);
        return Ok(());
    }
    // Every regular config is active, so fall back to a new instance of the first spanning
    // group.

    let groups = config.spanning_workspace_configs();
    if groups.len() == 0 {
        proof {
            lemma_keeps_itself(state@);
        }
        return Err(WmError::NoWorkspaceConfig);
    }
    assert(borrowed_configs(groups@)[0] == groups@[0]@);
    let first_page = PageKey::first(groups[0].name.as_str());
    match activate_spanning_instance(&first_page, monitor, state, config) {
        Ok(_) => Ok(()),
        Err(error) => Err(error),
    }
}

} // verus!
