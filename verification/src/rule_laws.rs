//! Which rules and keybindings of the user config apply, and which problems it has.
use vstd::prelude::*;

use crate::config::{KeybindingConfigView, ParsedConfigView};
use crate::container::WindowView;
use crate::user_config::{
    active_keybindings, all_rules, config_warnings, is_pending_rule, is_window_match, mapped_rules,
    maps_rules, pending_rules, rule_runs, rules_on, spec_event_key, warnings_of, ConfigWarningView,
};
use crate::window_rules::{InvokeCommandView, MatchTypeView, WindowRuleConfigView, WindowRuleEvent};
use crate::workspace_config::WorkspaceConfigView;

verus! {

/// A rule is pending for a window if and only if it wasn't run for the window yet, and has a match
/// config each of whose criteria accepts the window: the process name, the class name and the
/// title, as far as they are asked for. Pending rules are in the order of the rules, and none is
/// left out: `origins` holds their positions.
pub proof fn law_pending_rules_match_in_every_respect(
    rules: Seq<WindowRuleConfigView>,
    window: WindowView,
    m: spec_fn(Seq<char>, Seq<char>) -> bool,
    count: nat,
) -> (origins: Seq<int>)
    requires
        count <= rules.len(),
    ensures
        origins.len() == pending_rules(rules, window, m, count).len(),
        forall|k: int, l: int|
            0 <= k < l < origins.len() ==> (#[trigger] origins[k]) < (#[trigger] origins[l]),
        forall|k: int|
            0 <= k < origins.len() ==> 0 <= #[trigger] origins[k] < count && pending_rules(
                rules,
                window,
                m,
                count,
            )[k] == rules[origins[k]],
        forall|i: int|
            0 <= i < count ==> (#[trigger] origins.contains(i) <==> {
                let rule = rules[i];
                &&& !window.done_window_rules.contains(rule)
                &&& exists|c: int|
                    {
                        &&& 0 <= c < rule.match_window.len()
                        &&& match (#[trigger] rule.match_window[c]).window_process {
                            None => true,
                            Some(MatchTypeView::Equals { equals }) => equals == window.process_name
                                || window.process_name == "Zebar"@ && equals == "zebar"@,
                            Some(MatchTypeView::Pattern { pattern }) => m(
                                pattern,
                                window.process_name,
                            ) || window.process_name == "Zebar"@ && m(pattern, "zebar"@),
                        }
                        &&& match rule.match_window[c].window_class {
                            None => true,
                            Some(MatchTypeView::Equals { equals }) => equals == window.class_name,
                            Some(MatchTypeView::Pattern { pattern }) => m(
                                pattern,
                                window.class_name,
                            ),
                        }
                        &&& match rule.match_window[c].window_title {
                            None => true,
                            Some(MatchTypeView::Equals { equals }) => equals == window.title,
                            Some(MatchTypeView::Pattern { pattern }) => m(pattern, window.title),
                        }
                    }
            }),
    decreases count,
{
    if count == 0 {
        Seq::empty()
    } else {
        let last = count - 1;
        let rest = law_pending_rules_match_in_every_respect(rules, window, m, last as nat);
        let rule = rules[last];
        if is_pending_rule(rule, window, m) {
            let c = choose|c: int|
                0 <= c < rule.match_window.len() && is_window_match(
                    #[trigger] rule.match_window[c],
                    window,
                    m,
                );
            assert(is_window_match(rule.match_window[c], window, m));
            let origins = rest.push(last);
            assert forall|i: int| 0 <= i < last implies (#[trigger] origins.contains(i)
                <==> rest.contains(i)) by {
                if rest.contains(i) {
                    let k = choose|k: int| 0 <= k < rest.len() && rest[k] == i;
                    assert(origins[k] == i);
                }
            }
            assert(origins[rest.len() as int] == last);
            assert(origins.contains(last));
            origins
        } else {
            assert(!rest.contains(last));
            assert forall|c: int|
                0 <= c < rule.match_window.len() && !window.done_window_rules.contains(
                    rule,
                ) implies !is_window_match(#[trigger] rule.match_window[c], window, m) by {}
            rest
        }
    }
}

/// A rule whose only match config asks for another title, class or process than the window has
/// isn't pending.
pub proof fn law_rule_for_another_window_is_not_pending(
    rules: Seq<WindowRuleConfigView>,
    window: WindowView,
    m: spec_fn(Seq<char>, Seq<char>) -> bool,
    rule: WindowRuleConfigView,
    text: Seq<char>,
)
    requires
        rule.match_window.len() == 1,
        ({
            let config = rule.match_window[0];
            ||| config.window_title == Some(MatchTypeView::Equals { equals: text }) && window.title
                != text
            ||| config.window_class == Some(MatchTypeView::Equals { equals: text })
                && window.class_name != text
            ||| config.window_process == Some(MatchTypeView::Equals { equals: text })
                && window.process_name != text && !(window.process_name == "Zebar"@ && text
                == "zebar"@)
        }),
    ensures
        !pending_rules(rules, window, m, rules.len()).contains(rule),
{
    let pending = pending_rules(rules, window, m, rules.len());
    let origins = law_pending_rules_match_in_every_respect(rules, window, m, rules.len());
    if pending.contains(rule) {
        let k = choose|k: int| 0 <= k < pending.len() && pending[k] == rule;
        assert(origins[k] < rules.len());
        assert(origins.contains(origins[k]));
        assert(rules[origins[k]] == rule);
    }
}

/// A rule that was run for a window isn't pending any more.
pub proof fn law_done_rule_is_not_pending(
    rules: Seq<WindowRuleConfigView>,
    window: WindowView,
    m: spec_fn(Seq<char>, Seq<char>) -> bool,
    rule: WindowRuleConfigView,
)
    requires
        window.done_window_rules.contains(rule),
    ensures
        !pending_rules(rules, window, m, rules.len()).contains(rule),
{
    let pending = pending_rules(rules, window, m, rules.len());
    let origins = law_pending_rules_match_in_every_respect(rules, window, m, rules.len());
    if pending.contains(rule) {
        let k = choose|k: int| 0 <= k < pending.len() && pending[k] == rule;
        assert(origins.contains(origins[k]));
    }
}

proof fn lemma_rule_runs(rule: WindowRuleConfigView, event: WindowRuleEvent, count: nat)
    requires
        count <= rule.on.len(),
    ensures
        forall|k: int|
            0 <= k < rule_runs(rule, event, count).len() ==> #[trigger] rule_runs(
                rule,
                event,
                count,
            )[k] == rule,
        rule_runs(rule, event, count).len() > 0 <==> exists|j: int|
            0 <= j < count && #[trigger] rule.on[j] == event,
        rule_runs(rule, event, count).len() <= count,
        (forall|j: int| 0 <= j < count ==> #[trigger] rule.on[j] == event) ==> rule_runs(
            rule,
            event,
            count,
        ).len() == count,
    decreases count,
{
    if count > 0 {
        lemma_rule_runs(rule, event, (count - 1) as nat);
        if rule.on[count - 1] == event {
            assert(rule_runs(rule, event, count).len() > 0);
        } else if rule_runs(rule, event, count).len() > 0 {
            let j = choose|j: int| 0 <= j < count - 1 && #[trigger] rule.on[j] == event;
            assert(rule.on[j] == event);
        }
    }
}

/// The rules that are run on an event are those that list it, in the order in which they are
/// declared.
pub proof fn law_rules_run_on_the_events_they_list(
    rules: Seq<WindowRuleConfigView>,
    event: WindowRuleEvent,
    count: nat,
) -> (origins: Seq<int>)
    requires
        count <= rules.len(),
    ensures
        origins.len() == rules_on(rules, event, count).len(),
        forall|k: int, l: int|
            0 <= k < l < origins.len() ==> (#[trigger] origins[k]) <= (#[trigger] origins[l]),
        forall|k: int|
            0 <= k < origins.len() ==> 0 <= #[trigger] origins[k] < count && rules_on(
                rules,
                event,
                count,
            )[k] == rules[origins[k]],
        forall|i: int|
            0 <= i < count ==> (#[trigger] origins.contains(i) <==> rules[i].on.contains(event)),
    decreases count,
{
    if count == 0 {
        Seq::empty()
    } else {
        let last = count - 1;
        let rest = law_rules_run_on_the_events_they_list(rules, event, last as nat);
        let rule = rules[last];
        lemma_rule_runs(rule, event, rule.on.len());
        let runs = rule_runs(rule, event, rule.on.len());
        let origins = rest + Seq::new(runs.len(), |k: int| last);
        assert forall|i: int| 0 <= i < count implies (#[trigger] origins.contains(i)
            <==> rules[i].on.contains(event)) by {
            if i < last {
                if rest.contains(i) {
                    let k = choose|k: int| 0 <= k < rest.len() && rest[k] == i;
                    assert(origins[k] == i);
                }
                if origins.contains(i) {
                    let k = choose|k: int| 0 <= k < origins.len() && origins[k] == i;
                    assert(rest[k] == i);
                }
            } else {
                assert(!rest.contains(i));
                if runs.len() > 0 {
                    let j = choose|j: int| 0 <= j < rule.on.len() && #[trigger] rule.on[j] == event;
                    assert(origins[rest.len() as int] == i);
                }
                if origins.contains(i) {
                    let k = choose|k: int| 0 <= k < origins.len() && origins[k] == i;
                    assert(k >= rest.len());
                }
                if rule.on.contains(event) {
                    let j = choose|j: int| 0 <= j < rule.on.len() && rule.on[j] == event;
                    assert(rule.on[j] == event);
                }
            }
        }
        origins
    }
}

/// No two events share a key.
pub proof fn law_events_have_their_own_rules(a: WindowRuleEvent, b: WindowRuleEvent)
    requires
        spec_event_key(a) == spec_event_key(b),
    ensures
        a == b,
{
}

/// The rules of the user come before all others, in the order in which they are declared.
pub proof fn law_rules_of_the_user_come_first(value: ParsedConfigView, i: int)
    requires
        0 <= i < value.window_rules.len(),
    ensures
        value.window_rules.len() < all_rules(value).len(),
        all_rules(value)[i] == value.window_rules[i],
{
}

/// Whatever the user's config says, system dialogs are made floating when they are managed, by
/// the user's defaults for floating windows, and parts of the shell are ignored.
pub proof fn law_shell_windows_are_left_alone(
    value: ParsedConfigView,
    window: WindowView,
    m: spec_fn(Seq<char>, Seq<char>) -> bool,
) -> (at: int)
    requires
        window.done_window_rules.len() == 0,
    ensures
        ({
            let rules = rules_on(all_rules(value), WindowRuleEvent::Manage, all_rules(value).len());
            let pending = pending_rules(rules, window, m, rules.len());
            let floating = value.window_behavior.state_defaults.floating;
            &&& window.class_name == "OperationStatusWindow"@ || window.class_name == "#32770"@
                ==> 0 <= at < pending.len() && pending[at].commands.len() == 1
                && pending[at].run_once && pending[at].commands[0]
                == (InvokeCommandView::SetFloating {
                centered: Some(floating.centered),
                shown_on_top: Some(floating.shown_on_top),
                x_pos: None,
                y_pos: None,
                width: None,
                height: None,
            })
            &&& !(window.class_name == "OperationStatusWindow"@ || window.class_name == "#32770"@)
                && (window.process_name == "SearchApp"@ || window.process_name == "SearchHost"@
                || window.process_name == "ShellExperienceHost"@ || window.process_name
                == "StartMenuExperienceHost"@ || window.process_name == "ScreenClippingHost"@
                || window.process_name == "LockApp"@) ==> 0 <= at < pending.len()
                && pending[at].commands.len() == 1 && pending[at].commands[0]
                == InvokeCommandView::Ignore
        }),
{
    let all = all_rules(value);
    let count = value.window_rules.len() as int;
    let rules = rules_on(all, WindowRuleEvent::Manage, all.len());
    let pending = pending_rules(rules, window, m, rules.len());
    let runs = law_rules_run_on_the_events_they_list(all, WindowRuleEvent::Manage, all.len());
    let origins = law_pending_rules_match_in_every_respect(rules, window, m, rules.len());
    let is_dialog = window.class_name == "OperationStatusWindow"@ || window.class_name
        == "#32770"@;
    let is_shell = window.process_name == "SearchApp"@ || window.process_name == "SearchHost"@
        || window.process_name == "ShellExperienceHost"@ || window.process_name
        == "StartMenuExperienceHost"@ || window.process_name == "ScreenClippingHost"@
        || window.process_name == "LockApp"@;
    let i = if is_dialog {
        count
    } else {
        count + 1
    };
    let rule = all[i];
    if is_dialog || is_shell {
        assert(rule.on[0] == WindowRuleEvent::Manage);
        assert(rule.on.contains(WindowRuleEvent::Manage));
        assert(runs.contains(i));
        let k = choose|k: int| 0 <= k < runs.len() && runs[k] == i;
        assert(rules[k] == rule);
        let c = if is_dialog {
            if window.class_name == "OperationStatusWindow"@ {
                0int
            } else {
                1
            }
        } else if window.process_name == "SearchApp"@ {
            0
        } else if window.process_name == "SearchHost"@ {
            1
        } else if window.process_name == "ShellExperienceHost"@ {
            2
        } else if window.process_name == "StartMenuExperienceHost"@ {
            3
        } else if window.process_name == "ScreenClippingHost"@ {
            4
        } else {
            5
        };
        let config = rule.match_window[c];
        assert(config.window_title is None);
        assert(!window.done_window_rules.contains(rule));
        assert(rules[k].match_window[c] == config);
        assert(origins.contains(k));
        let at = choose|at: int| 0 <= at < origins.len() && origins[at] == k;
        assert(pending[at] == rules[k]);
        at
    } else {
        0
    }
}

/// A keybinding is active if and only if the WM isn't paused, or the keybinding ends the pause.
/// Active keybindings are in the order in which they are declared.
pub proof fn law_keybindings_are_active_unless_paused(
    keybindings: Seq<KeybindingConfigView>,
    is_paused: bool,
    count: nat,
) -> (origins: Seq<int>)
    requires
        count <= keybindings.len(),
    ensures
        origins.len() == active_keybindings(keybindings, is_paused, count).len(),
        forall|k: int, l: int|
            0 <= k < l < origins.len() ==> (#[trigger] origins[k]) < (#[trigger] origins[l]),
        forall|k: int|
            0 <= k < origins.len() ==> 0 <= #[trigger] origins[k] < count && active_keybindings(
                keybindings,
                is_paused,
                count,
            )[k] == keybindings[origins[k]],
        forall|i: int|
            0 <= i < count ==> (#[trigger] origins.contains(i) <==> !is_paused
                || keybindings[i].commands.contains(InvokeCommandView::WmTogglePause)),
    decreases count,
{
    if count == 0 {
        Seq::empty()
    } else {
        let last = count - 1;
        let rest = law_keybindings_are_active_unless_paused(keybindings, is_paused, last as nat);
        if !is_paused || keybindings[last].commands.contains(InvokeCommandView::WmTogglePause) {
            let origins = rest.push(last);
            lemma_pushed(rest, last);
            origins
        } else {
            assert(!rest.contains(last));
            rest
        }
    }
}

/// What a list contains once something is added to it.
pub proof fn lemma_pushed(rest: Seq<int>, last: int)
    ensures
        rest.push(last).contains(last),
        forall|i: int| i != last ==> (#[trigger] rest.push(last).contains(i) <==> rest.contains(i)),
{
    let origins = rest.push(last);
    assert(origins[rest.len() as int] == last);
    assert forall|i: int| i != last implies (#[trigger] origins.contains(i) <==> rest.contains(
        i,
    )) by {
        if rest.contains(i) {
            let k = choose|k: int| 0 <= k < rest.len() && rest[k] == i;
            assert(origins[k] == i);
        }
        if origins.contains(i) {
            let k = choose|k: int| 0 <= k < origins.len() && origins[k] == i;
            assert(rest[k] == i);
        }
    }
}

/// The user is warned of a spanning workspace if and only if it is bound to a monitor as well, or
/// its name holds a character that names of instances are made with.
pub proof fn law_warnings_are_about_spanning_workspaces(
    configs: Seq<WorkspaceConfigView>,
    count: nat,
    name: Seq<char>,
)
    requires
        count <= configs.len(),
    ensures
        config_warnings(configs, count).contains(ConfigWarningView::BindingIgnored(name))
            <==> exists|i: int|
            0 <= i < count && (#[trigger] configs[i]).name == name && configs[i].monitors is Some
                && configs[i].bind_to_monitor is Some,
        config_warnings(configs, count).contains(ConfigWarningView::ReservedName(name))
            <==> exists|i: int|
            0 <= i < count && (#[trigger] configs[i]).name == name && configs[i].monitors is Some
                && configs[i].name.contains('#'),
    decreases count,
{
    let all = config_warnings(configs, count);
    if count == 0 {
        assert(all =~= Seq::empty());
    } else {
        let last = count - 1;
        let config = configs[last];
        let rest = config_warnings(configs, last as nat);
        let own = warnings_of(config);
        law_warnings_are_about_spanning_workspaces(configs, last as nat, name);
        assert(all == rest + own);
        let is_bound = config.monitors is Some && config.bind_to_monitor is Some;
        let is_reserved = config.monitors is Some && config.name.contains('#');
        let binding = ConfigWarningView::BindingIgnored(config.name);
        let reserved = ConfigWarningView::ReservedName(config.name);
        if is_bound {
            assert(own[0] == binding);
        }
        if is_reserved {
            assert(own[own.len() - 1] == reserved);
        }
        assert forall|warning: ConfigWarningView| #[trigger]
            all.contains(warning) <==> rest.contains(warning) || own.contains(warning) by {
            if rest.contains(warning) {
                let k = choose|k: int| 0 <= k < rest.len() && rest[k] == warning;
                assert(all[k] == warning);
            }
            if own.contains(warning) {
                let k = choose|k: int| 0 <= k < own.len() && own[k] == warning;
                assert(all[rest.len() + k] == warning);
            }
            if all.contains(warning) {
                let k = choose|k: int| 0 <= k < all.len() && all[k] == warning;
                if k < rest.len() {
                    assert(rest[k] == warning);
                } else {
                    assert(own[k - rest.len()] == warning);
                }
            }
        }
        assert(own.contains(ConfigWarningView::BindingIgnored(name)) <==> is_bound && config.name
            == name) by {
            if own.contains(ConfigWarningView::BindingIgnored(name)) {
                let k = choose|k: int|
                    0 <= k < own.len() && own[k] == ConfigWarningView::BindingIgnored(name);
                assert(own[k] == binding || own[k] == reserved);
            }
        }
        assert(own.contains(ConfigWarningView::ReservedName(name)) <==> is_reserved && config.name
            == name) by {
            if own.contains(ConfigWarningView::ReservedName(name)) {
                let k = choose|k: int|
                    0 <= k < own.len() && own[k] == ConfigWarningView::ReservedName(name);
                assert(own[k] == binding || own[k] == reserved);
            }
        }
        if is_bound && config.name == name || is_reserved && config.name == name {
            assert(configs[last].name == name);
        }
        if exists|i: int|
            0 <= i < count && (#[trigger] configs[i]).name == name && configs[i].monitors is Some
                && configs[i].bind_to_monitor is Some {
            let i = choose|i: int|
                0 <= i < count && (#[trigger] configs[i]).name == name
                    && configs[i].monitors is Some && configs[i].bind_to_monitor is Some;
            if i < last {
                assert(configs[i].name == name);
            }
        }
        if exists|i: int|
            0 <= i < count && (#[trigger] configs[i]).name == name && configs[i].monitors is Some
                && configs[i].name.contains('#') {
            let i = choose|i: int|
                0 <= i < count && (#[trigger] configs[i]).name == name
                    && configs[i].monitors is Some && configs[i].name.contains('#');
            if i < last {
                assert(configs[i].name == name);
            }
        }
    }
}

/// A rule that the user declares for an event is pending for a window that it matches, unless it
/// was run for the window already.
pub proof fn law_declared_rule_is_pending(
    map: Map<u64, Vec<crate::window_rules::WindowRuleConfig>>,
    value: ParsedConfigView,
    event: WindowRuleEvent,
    window: WindowView,
    m: spec_fn(Seq<char>, Seq<char>) -> bool,
    i: int,
    c: int,
)
    requires
        maps_rules(map, value),
        0 <= i < value.window_rules.len(),
        value.window_rules[i].on.contains(event),
        !window.done_window_rules.contains(value.window_rules[i]),
        0 <= c < value.window_rules[i].match_window.len(),
        value.window_rules[i].match_window[c].window_process is None,
        match value.window_rules[i].match_window[c].window_class {
            None => true,
            Some(MatchTypeView::Equals { equals }) => equals == window.class_name,
            Some(MatchTypeView::Pattern { pattern }) => m(pattern, window.class_name),
        },
        match value.window_rules[i].match_window[c].window_title {
            None => true,
            Some(MatchTypeView::Equals { equals }) => equals == window.title,
            Some(MatchTypeView::Pattern { pattern }) => m(pattern, window.title),
        },
    ensures
        pending_rules(
            mapped_rules(map, event),
            window,
            m,
            mapped_rules(map, event).len(),
        ).contains(value.window_rules[i]),
{
    let all = all_rules(value);
    let rules = mapped_rules(map, event);
    assert(rules == rules_on(all, event, all.len()));
    let runs = law_rules_run_on_the_events_they_list(all, event, all.len());
    law_rules_of_the_user_come_first(value, i);
    assert(runs.contains(i));
    let k = choose|k: int| 0 <= k < runs.len() && runs[k] == i;
    assert(rules[k] == value.window_rules[i]);
    let pending = pending_rules(rules, window, m, rules.len());
    let origins = law_pending_rules_match_in_every_respect(rules, window, m, rules.len());
    assert(rules[k].match_window[c] == value.window_rules[i].match_window[c]);
    assert(origins.contains(k));
    let at = choose|at: int| 0 <= at < origins.len() && origins[at] == k;
    assert(pending[at] == rules[k]);
}

/// Rules are run only on events that they are declared for, or that the default ones are for.
pub proof fn law_rule_is_not_run_on_other_events(
    map: Map<u64, Vec<crate::window_rules::WindowRuleConfig>>,
    value: ParsedConfigView,
    event: WindowRuleEvent,
    rule: WindowRuleConfigView,
)
    requires
        maps_rules(map, value),
        mapped_rules(map, event).contains(rule),
    ensures
        rule.on.contains(event),
        value.window_rules.contains(rule) || event == WindowRuleEvent::Manage,
{
    let all = all_rules(value);
    let rules = mapped_rules(map, event);
    assert(rules == rules_on(all, event, all.len()));
    let runs = law_rules_run_on_the_events_they_list(all, event, all.len());
    let k = choose|k: int| 0 <= k < rules.len() && rules[k] == rule;
    let i = runs[k];
    assert(runs.contains(i));
    assert(all[i] == rule);
    if i < value.window_rules.len() {
        assert(value.window_rules[i] == rule);
    } else {
        let j = choose|j: int| 0 <= j < rule.on.len() && rule.on[j] == event;
        assert(rule.on[j] == event);
    }
}

/// Without a rule of the user's, only system dialogs and parts of the shell have rules.
pub proof fn law_ordinary_windows_have_no_default_rules(
    value: ParsedConfigView,
    window: WindowView,
    m: spec_fn(Seq<char>, Seq<char>) -> bool,
    rule: WindowRuleConfigView,
    event: WindowRuleEvent,
)
    requires
        !value.window_rules.contains(rule),
        !(window.class_name == "OperationStatusWindow"@ || window.class_name == "#32770"@
            || window.process_name == "SearchApp"@ || window.process_name == "SearchHost"@
            || window.process_name == "ShellExperienceHost"@ || window.process_name
            == "StartMenuExperienceHost"@ || window.process_name == "ScreenClippingHost"@
            || window.process_name == "LockApp"@ || window.process_name == "Zebar"@),
    ensures
        ({
            let rules = rules_on(all_rules(value), event, all_rules(value).len());
            !pending_rules(rules, window, m, rules.len()).contains(rule)
        }),
{
    let all = all_rules(value);
    let rules = rules_on(all, event, all.len());
    let pending = pending_rules(rules, window, m, rules.len());
    let runs = law_rules_run_on_the_events_they_list(all, event, all.len());
    let origins = law_pending_rules_match_in_every_respect(rules, window, m, rules.len());
    if pending.contains(rule) {
        let at = choose|at: int| 0 <= at < pending.len() && pending[at] == rule;
        let k = origins[at];
        assert(origins.contains(k));
        assert(rules[k] == rule);
        let i = runs[k];
        assert(all[i] == rule);
        if i < value.window_rules.len() {
            assert(value.window_rules[i] == rule);
        }
        let count = value.window_rules.len();
        assert(i == count || i == count + 1);
        let defaults = crate::user_config::default_rules(
            value.window_behavior.state_defaults.floating,
        );
        assert(rule == defaults[i - count]);
        assert forall|c: int| 0 <= c < rule.match_window.len() implies !is_window_match(
            #[trigger] rule.match_window[c],
            window,
            m,
        ) by {}
        assert(is_pending_rule(rule, window, m)) by {
            let c = choose|c: int|
                {
                    &&& 0 <= c < rule.match_window.len()
                    &&& match (#[trigger] rule.match_window[c]).window_process {
                        None => true,
                        Some(MatchTypeView::Equals { equals }) => equals == window.process_name
                            || window.process_name == "Zebar"@ && equals == "zebar"@,
                        Some(MatchTypeView::Pattern { pattern }) => m(
                            pattern,
                            window.process_name,
                        ) || window.process_name == "Zebar"@ && m(pattern, "zebar"@),
                    }
                    &&& match rule.match_window[c].window_class {
                        None => true,
                        Some(MatchTypeView::Equals { equals }) => equals == window.class_name,
                        Some(MatchTypeView::Pattern { pattern }) => m(pattern, window.class_name),
                    }
                    &&& match rule.match_window[c].window_title {
                        None => true,
                        Some(MatchTypeView::Equals { equals }) => equals == window.title,
                        Some(MatchTypeView::Pattern { pattern }) => m(pattern, window.title),
                    }
                };
            assert(is_window_match(rule.match_window[c], window, m));
        }
    }
}

} // verus!
