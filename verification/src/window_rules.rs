//! Window rules: which windows they match and which commands they run.
use vstd::prelude::*;

use crate::text::{clone_text, same_optional_text, same_text, text_view};

verus! {

/// Event on which window rules are run.
#[derive(Clone, Copy, Debug, PartialEq, Eq, Hash, Structural)]
pub enum WindowRuleEvent {
    Focus,
    Manage,
    TitleChange,
}

/// Command that a rule or a keybinding invokes.
#[derive(Debug, PartialEq, Eq)]
pub enum InvokeCommand {
    Ignore,
    SetFloating {
        centered: Option<bool>,
        shown_on_top: Option<bool>,
        x_pos: Option<i32>,
        y_pos: Option<i32>,
        width: Option<String>,
        height: Option<String>,
    },
    WmTogglePause,
    /// Any other command, as written in the config.
    Other(String),
}

pub enum InvokeCommandView {
    Ignore,
    SetFloating {
        centered: Option<bool>,
        shown_on_top: Option<bool>,
        x_pos: Option<i32>,
        y_pos: Option<i32>,
        width: Option<Seq<char>>,
        height: Option<Seq<char>>,
    },
    WmTogglePause,
    Other(Seq<char>),
}

impl View for InvokeCommand {
    type V = InvokeCommandView;

    open spec fn view(&self) -> InvokeCommandView {
        match self {
            InvokeCommand::Ignore => InvokeCommandView::Ignore,
            InvokeCommand::SetFloating {
                centered,
                shown_on_top,
                x_pos,
                y_pos,
                width,
                height,
            } => InvokeCommandView::SetFloating {
                centered: *centered,
                shown_on_top: *shown_on_top,
                x_pos: *x_pos,
                y_pos: *y_pos,
                width: text_view(*width),
                height: text_view(*height),
            },
            InvokeCommand::WmTogglePause => InvokeCommandView::WmTogglePause,
            InvokeCommand::Other(text) => InvokeCommandView::Other(text@),
        }
    }
}

impl Clone for InvokeCommand {
    fn clone(&self) -> (copy: Self)
        ensures
            copy@ == self@,
    {
        match self {
            InvokeCommand::Ignore => InvokeCommand::Ignore,
            InvokeCommand::SetFloating {
                centered,
                shown_on_top,
                x_pos,
                y_pos,
                width,
                height,
            } => InvokeCommand::SetFloating {
                centered: *centered,
                shown_on_top: *shown_on_top,
                x_pos: *x_pos,
                y_pos: *y_pos,
                width: clone_text(width),
                height: clone_text(height),
            },
            InvokeCommand::WmTogglePause => InvokeCommand::WmTogglePause,
            InvokeCommand::Other(text) => InvokeCommand::Other(text.clone()),
        }
    }
}

fn same_flag(a: Option<bool>, b: Option<bool>) -> (same: bool)
    ensures
        same == (a == b),
{
    match (a, b) {
        (Some(a), Some(b)) => a == b,
        (None, None) => true,
        _ => false,
    }
}

fn same_offset(a: Option<i32>, b: Option<i32>) -> (same: bool)
    ensures
        same == (a == b),
{
    match (a, b) {
        (Some(a), Some(b)) => a == b,
        (None, None) => true,
        _ => false,
    }
}

impl InvokeCommand {
    /// Whether two commands are the same.
    pub fn same(&self, other: &InvokeCommand) -> (same: bool)
        ensures
            same == (self@ == other@),
    {
        match (self, other) {
            (InvokeCommand::Ignore, InvokeCommand::Ignore) => true,
            (InvokeCommand::WmTogglePause, InvokeCommand::WmTogglePause) => true,
            (InvokeCommand::Other(a), InvokeCommand::Other(b)) => *a == *b,
            (
                InvokeCommand::SetFloating {
                    centered: c1,
                    shown_on_top: s1,
                    x_pos: x1,
                    y_pos: y1,
                    width: w1,
                    height: h1,
                },
                InvokeCommand::SetFloating {
                    centered: c2,
                    shown_on_top: s2,
                    x_pos: x2,
                    y_pos: y2,
                    width: w2,
                    height: h2,
                },
            ) => same_flag(*c1, *c2) && same_flag(*s1, *s2) && same_offset(*x1, *x2)
                && same_offset(*y1, *y2) && same_optional_text(w1, w2) && same_optional_text(
                h1,
                h2,
            ),
            _ => false,
        }
    }
}

pub open spec fn commands_view(commands: Seq<InvokeCommand>) -> Seq<InvokeCommandView> {
    commands.map_values(|command: InvokeCommand| command@)
}

pub fn clone_commands(commands: &Vec<InvokeCommand>) -> (copy: Vec<InvokeCommand>)
    ensures
        commands_view(copy@) == commands_view(commands@),
{
    let mut copy: Vec<InvokeCommand> = Vec::new();
    let mut i: usize = 0;
    while i < commands.len()
        invariant
            i <= commands@.len(),
            copy@.len() == i,
            forall|j: int| 0 <= j < i ==> (#[trigger] copy@[j])@ == commands@[j]@,
        decreases commands@.len() - i,
    {
        let command = commands[i].clone();
        copy.push(command);
        i = i + 1;
    }
    assert(commands_view(copy@) =~= commands_view(commands@));
    copy
}

pub fn same_commands(a: &Vec<InvokeCommand>, b: &Vec<InvokeCommand>) -> (same: bool)
    ensures
        same == (commands_view(a@) == commands_view(b@)),
{
    if a.len() != b.len() {
        assert(commands_view(a@).len() != commands_view(b@).len());
        return false;
    }
    let mut i: usize = 0;
    while i < a.len()
        invariant
            i <= a@.len(),
            a@.len() == b@.len(),
            forall|j: int| 0 <= j < i ==> (#[trigger] a@[j])@ == b@[j]@,
        decreases a@.len() - i,
    {
        if !a[i].same(&b[i]) {
            assert(commands_view(a@)[i as int] != commands_view(b@)[i as int]);
            return false;
        }
        i = i + 1;
    }
    assert(commands_view(a@) =~= commands_view(b@));
    true
}

/// Whether a list of commands holds a command.
pub fn has_command(commands: &Vec<InvokeCommand>, command: &InvokeCommand) -> (has: bool)
    ensures
        has == commands_view(commands@).contains(command@),
{
    let mut i: usize = 0;
    while i < commands.len()
        invariant
            i <= commands@.len(),
            forall|j: int| 0 <= j < i ==> (#[trigger] commands@[j])@ != command@,
        decreases commands@.len() - i,
    {
        if commands[i].same(command) {
            assert(commands_view(commands@)[i as int] == command@);
            return true;
        }
        i = i + 1;
    }
    assert forall|j: int| 0 <= j < commands_view(commands@).len() implies commands_view(
        commands@,
    )[j] != command@ by {
        assert(commands@[j]@ != command@);
    }
    false
}

/// How a text is matched.
#[derive(Debug, PartialEq, Eq)]
pub enum MatchType {
    /// By being equal to a text.
    Equals { equals: String },
    /// By a pattern, which is evaluated by the caller's pattern matcher.
    Pattern { pattern: String },
}

pub enum MatchTypeView {
    Equals { equals: Seq<char> },
    Pattern { pattern: Seq<char> },
}

impl View for MatchType {
    type V = MatchTypeView;

    open spec fn view(&self) -> MatchTypeView {
        match self {
            MatchType::Equals { equals } => MatchTypeView::Equals { equals: equals@ },
            MatchType::Pattern { pattern } => MatchTypeView::Pattern { pattern: pattern@ },
        }
    }
}

impl Clone for MatchType {
    fn clone(&self) -> (copy: Self)
        ensures
            copy@ == self@,
    {
        match self {
            MatchType::Equals { equals } => MatchType::Equals { equals: equals.clone() },
            MatchType::Pattern { pattern } => MatchType::Pattern { pattern: pattern.clone() },
        }
    }
}

/// Whether every answer of the pattern matcher `f` is the one that `matches` gives.
pub open spec fn matcher_decided_by<F: Fn(&str, &str) -> bool>(
    f: F,
    matches: spec_fn(Seq<char>, Seq<char>) -> bool,
) -> bool {
    forall|pattern: &str, text: &str, answer: bool| #[trigger]
        call_ensures(f, (pattern, text), answer) ==> answer == matches(pattern@, text@)
}

impl MatchTypeView {
    pub open spec fn accepts(
        self,
        text: Seq<char>,
        matches: spec_fn(Seq<char>, Seq<char>) -> bool,
    ) -> bool {
        match self {
            MatchTypeView::Equals { equals } => equals == text,
            MatchTypeView::Pattern { pattern } => matches(pattern, text),
        }
    }
}

impl MatchType {
    /// Whether a text is matched.
    pub fn is_match<F: Fn(&str, &str) -> bool>(&self, text: &str, matcher: &F) -> (is_match: bool)
        requires
            forall|pattern: &str, text: &str| call_requires(*matcher, (pattern, text)),
        ensures
            forall|m: spec_fn(Seq<char>, Seq<char>) -> bool|
                matcher_decided_by(*matcher, m) ==> is_match == #[trigger] self@.accepts(text@, m),
            self@ matches MatchTypeView::Equals { equals } ==> is_match == (equals == text@),
    {
        match self {
            MatchType::Equals { equals } => same_text(equals.as_str(), text),
            MatchType::Pattern { pattern } => matcher(pattern.as_str(), text),
        }
    }

    pub fn same(&self, other: &MatchType) -> (same: bool)
        ensures
            same == (self@ == other@),
    {
        match (self, other) {
            (MatchType::Equals { equals: a }, MatchType::Equals { equals: b }) => *a == *b,
            (MatchType::Pattern { pattern: a }, MatchType::Pattern { pattern: b }) => *a == *b,
            _ => false,
        }
    }
}

pub open spec fn match_view(m: Option<MatchType>) -> Option<MatchTypeView> {
    match m {
        Some(m) => Some(m@),
        None => None,
    }
}

fn clone_match(m: &Option<MatchType>) -> (copy: Option<MatchType>)
    ensures
        match_view(copy) == match_view(*m),
{
    match m {
        Some(m) => Some(m.clone()),
        None => None,
    }
}

fn same_match(a: &Option<MatchType>, b: &Option<MatchType>) -> (same: bool)
    ensures
        same == (match_view(*a) == match_view(*b)),
{
    match (a, b) {
        (Some(a), Some(b)) => a.same(b),
        (None, None) => true,
        _ => false,
    }
}

/// Windows that a rule applies to. A criterion that isn't set is met by every window.
#[derive(Debug, PartialEq, Eq)]
pub struct WindowMatchConfig {
    pub window_process: Option<MatchType>,
    pub window_class: Option<MatchType>,
    pub window_title: Option<MatchType>,
}

pub struct WindowMatchConfigView {
    pub window_process: Option<MatchTypeView>,
    pub window_class: Option<MatchTypeView>,
    pub window_title: Option<MatchTypeView>,
}

impl View for WindowMatchConfig {
    type V = WindowMatchConfigView;

    open spec fn view(&self) -> WindowMatchConfigView {
        WindowMatchConfigView {
            window_process: match_view(self.window_process),
            window_class: match_view(self.window_class),
            window_title: match_view(self.window_title),
        }
    }
}

impl Clone for WindowMatchConfig {
    fn clone(&self) -> (copy: Self)
        ensures
            copy@ == self@,
    {
        WindowMatchConfig {
            window_process: clone_match(&self.window_process),
            window_class: clone_match(&self.window_class),
            window_title: clone_match(&self.window_title),
        }
    }
}

impl WindowMatchConfig {
    pub fn same(&self, other: &WindowMatchConfig) -> (same: bool)
        ensures
            same == (self@ == other@),
    {
        same_match(&self.window_process, &other.window_process) && same_match(
            &self.window_class,
            &other.window_class,
        ) && same_match(&self.window_title, &other.window_title)
    }
}

pub open spec fn matches_view(matches: Seq<WindowMatchConfig>) -> Seq<WindowMatchConfigView> {
    matches.map_values(|m: WindowMatchConfig| m@)
}

fn clone_matches(matches: &Vec<WindowMatchConfig>) -> (copy: Vec<WindowMatchConfig>)
    ensures
        matches_view(copy@) == matches_view(matches@),
{
    let mut copy: Vec<WindowMatchConfig> = Vec::new();
    let mut i: usize = 0;
    while i < matches.len()
        invariant
            i <= matches@.len(),
            copy@.len() == i,
            forall|j: int| 0 <= j < i ==> (#[trigger] copy@[j])@ == matches@[j]@,
        decreases matches@.len() - i,
    {
        let m = matches[i].clone();
        copy.push(m);
        i = i + 1;
    }
    assert(matches_view(copy@) =~= matches_view(matches@));
    copy
}

fn same_matches(a: &Vec<WindowMatchConfig>, b: &Vec<WindowMatchConfig>) -> (same: bool)
    ensures
        same == (matches_view(a@) == matches_view(b@)),
{
    if a.len() != b.len() {
        assert(matches_view(a@).len() != matches_view(b@).len());
        return false;
    }
    let mut i: usize = 0;
    while i < a.len()
        invariant
            i <= a@.len(),
            a@.len() == b@.len(),
            forall|j: int| 0 <= j < i ==> (#[trigger] a@[j])@ == b@[j]@,
        decreases a@.len() - i,
    {
        if !a[i].same(&b[i]) {
            assert(matches_view(a@)[i as int] != matches_view(b@)[i as int]);
            return false;
        }
        i = i + 1;
    }
    assert(matches_view(a@) =~= matches_view(b@));
    true
}

fn clone_events(events: &Vec<WindowRuleEvent>) -> (copy: Vec<WindowRuleEvent>)
    ensures
        copy@ == events@,
{
    let mut copy: Vec<WindowRuleEvent> = Vec::new();
    let mut i: usize = 0;
    while i < events.len()
        invariant
            i <= events@.len(),
            copy@ == events@.take(i as int),
        decreases events@.len() - i,
    {
        copy.push(events[i]);
        i = i + 1;
        assert(copy@ =~= events@.take(i as int));
    }
    assert(events@.take(i as int) =~= events@);
    copy
}

fn same_events(a: &Vec<WindowRuleEvent>, b: &Vec<WindowRuleEvent>) -> (same: bool)
    ensures
        same == (a@ == b@),
{
    if a.len() != b.len() {
        return false;
    }
    let mut i: usize = 0;
    while i < a.len()
        invariant
            i <= a@.len(),
            a@.len() == b@.len(),
            forall|j: int| 0 <= j < i ==> a@[j] == b@[j],
        decreases a@.len() - i,
    {
        if a[i] != b[i] {
            return false;
        }
        i = i + 1;
    }
    assert(a@ =~= b@);
    true
}

/// Commands that are run for matching windows on certain events.
#[derive(Debug, PartialEq, Eq)]
pub struct WindowRuleConfig {
    pub commands: Vec<InvokeCommand>,
    pub match_window: Vec<WindowMatchConfig>,
    pub on: Vec<WindowRuleEvent>,
    pub run_once: bool,
}

pub struct WindowRuleConfigView {
    pub commands: Seq<InvokeCommandView>,
    pub match_window: Seq<WindowMatchConfigView>,
    pub on: Seq<WindowRuleEvent>,
    pub run_once: bool,
}

impl View for WindowRuleConfig {
    type V = WindowRuleConfigView;

    open spec fn view(&self) -> WindowRuleConfigView {
        WindowRuleConfigView {
            commands: commands_view(self.commands@),
            match_window: matches_view(self.match_window@),
            on: self.on@,
            run_once: self.run_once,
        }
    }
}

impl Clone for WindowRuleConfig {
    fn clone(&self) -> (copy: Self)
        ensures
            copy@ == self@,
    {
        WindowRuleConfig {
            commands: clone_commands(&self.commands),
            match_window: clone_matches(&self.match_window),
            on: clone_events(&self.on),
            run_once: self.run_once,
        }
    }
}

impl WindowRuleConfig {
    pub fn same(&self, other: &WindowRuleConfig) -> (same: bool)
        ensures
            same == (self@ == other@),
    {
        self.run_once == other.run_once && same_commands(&self.commands, &other.commands)
            && same_matches(&self.match_window, &other.match_window) && same_events(
            &self.on,
            &other.on,
        )
    }
}

pub open spec fn rules_view(rules: Seq<WindowRuleConfig>) -> Seq<WindowRuleConfigView> {
    rules.map_values(|rule: WindowRuleConfig| rule@)
}

/// Whether a list of rules holds a rule.
pub fn has_rule(rules: &Vec<WindowRuleConfig>, rule: &WindowRuleConfig) -> (has: bool)
    ensures
        has == rules_view(rules@).contains(rule@),
{
    let mut i: usize = 0;
    while i < rules.len()
        invariant
            i <= rules@.len(),
            forall|j: int| 0 <= j < i ==> (#[trigger] rules@[j])@ != rule@,
        decreases rules@.len() - i,
    {
        if rules[i].same(rule) {
            assert(rules_view(rules@)[i as int] == rule@);
            return true;
        }
        i = i + 1;
    }
    assert forall|j: int| 0 <= j < rules_view(rules@).len() implies rules_view(rules@)[j]
        != rule@ by {
        assert(rules@[j]@ != rule@);
    }
    false
}

} // verus!
