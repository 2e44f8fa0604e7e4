//! Keys and labels of the pages of spanning workspace groups.
use vstd::prelude::*;
use vstd::string::StrSliceExecFns;
use vstd::string::StringExecFns;

use crate::text::{decimal_text, find_last, parse_unsigned, same_text};

verus! {

broadcast use vstd::string::group_string_axioms;

/// Identifies one page of a spanning ("virtual desktop") workspace group.
///
/// Page 1 is the group itself. When fewer monitors are connected than the group has
/// instances, the instances of the missing monitors are shown on further pages, one instance
/// per connected monitor.
///
/// The label of a page is the plain group name for page 1 (e.g. `1`) and `<group>/<page>` for
/// further pages (e.g. `1/2`).
#[derive(Debug, Eq, Hash, PartialEq)]
pub struct PageKey {
    pub group: String,
    pub page: usize,
}

/// Mathematical value of a [`PageKey`].
pub struct PageKeyView {
    pub group: Seq<char>,
    pub page: usize,
}

impl View for PageKey {
    type V = PageKeyView;

    open spec fn view(&self) -> PageKeyView {
        PageKeyView { group: self.group@, page: self.page }
    }
}

impl Clone for PageKey {
    fn clone(&self) -> (copy: Self)
        ensures
            copy@ == self@,
    {
        PageKey { group: self.group.clone(), page: self.page }
    }
}

impl PageKeyView {
    /// Key of a group's first page.
    pub open spec fn first(group: Seq<char>) -> PageKeyView {
        PageKeyView { group, page: 1 }
    }

    /// Label of the page.
    pub open spec fn label(self) -> Seq<char> {
        if self.page <= 1 {
            self.group
        } else {
            self.group + seq!['/'] + crate::text::decimal(self.page as nat)
        }
    }
}

/// Splits a label at its last slash into a candidate group name and a page number. `None` if
/// there is no slash, or what follows it is no number from 1 on.
pub open spec fn split_label(label: Seq<char>) -> Option<PageKeyView> {
    match crate::text::last_position(label, '/') {
        Some(slash) => match crate::text::unsigned_value(label.skip(slash + 1)) {
            Some(page) => if page >= 1 {
                Some(PageKeyView { group: label.take(slash), page })
            } else {
                None
            },
            None => None,
        },
        None => None,
    }
}

/// The page that a label names: the first page of the group with that very name, or else the
/// numbered page of a group.
pub open spec fn parsed_label(label: Seq<char>, is_group: spec_fn(Seq<char>) -> bool) -> Option<
    PageKeyView,
> {
    if is_group(label) {
        Some(PageKeyView::first(label))
    } else {
        match split_label(label) {
            Some(key) => if is_group(key.group) {
                Some(key)
            } else {
                None
            },
            None => None,
        }
    }
}

/// View of an optional page key.
pub open spec fn key_view(key: Option<PageKey>) -> Option<PageKeyView> {
    match key {
        Some(key) => Some(key@),
        None => None,
    }
}

/// Whether every answer of `f` is the one that `is_group` gives.
pub open spec fn decided_by<F: Fn(&str) -> bool>(
    f: F,
    is_group: spec_fn(Seq<char>) -> bool,
) -> bool {
    forall|name: &str, answer: bool| #[trigger]
        call_ensures(f, (name,), answer) ==> answer == is_group(name@)
}

/// Whether `f` can give `answer` on a name with these characters.
pub open spec fn can_answer<F: Fn(&str) -> bool>(f: F, name: Seq<char>, answer: bool) -> bool {
    exists|text: &str| text@ == name && #[trigger] call_ensures(f, (text,), answer)
}

impl PageKey {
    /// Creates the key of the group's first page.
    #[must_use]
    pub fn first(group: &str) -> (key: Self)
        ensures
            key@ == PageKeyView::first(group@),
    {
        PageKey { group: group.to_owned(), page: 1 }
    }

    /// Parses a page label (e.g. `1` or `1/2`).
    ///
    /// `is_group` decides whether a candidate group name is valid, so that group names
    /// containing `/` are matched as a whole first.
    ///
    /// Returns `None` if no valid group name can be found in the label.
    pub fn parse<F: Fn(&str) -> bool>(label: &str, is_group: F) -> (key: Option<PageKey>)
        requires
            forall|name: &str| call_requires(is_group, (name,)),
        ensures
            forall|p: spec_fn(Seq<char>) -> bool|
                decided_by(is_group, p) ==> key_view(key) == #[trigger] parsed_label(label@, p),
            match key {
                Some(key) => {
                    ||| can_answer(is_group, label@, true) && key@ == PageKeyView::first(label@)
                    ||| can_answer(is_group, label@, false) && split_label(label@) == Some(key@)
                        && can_answer(is_group, key@.group, true)
                },
                None => can_answer(is_group, label@, false) && match split_label(label@) {
                    Some(key) => can_answer(is_group, key.group, false),
                    None => true,
                },
            },
    {
        if is_group(label) {
            return Some(PageKey::first(label));
        }
        let slash = match find_last(label, '/') {
            Some(slash) => slash,
            None => return None,
        };
        let len = label.unicode_len();
        let group = label.substring_char(0, slash);
        let number = label.substring_char(slash + 1, len);
        assert(group@ =~= label@.take(slash as int));
        assert(number@ =~= label@.skip(slash + 1));
        let page = match parse_unsigned(number) {
            Some(page) => page,
            None => return None,
        };
        if page < 1 {
            return None;
        }
        if is_group(group) {
            Some(PageKey { group: group.to_owned(), page })
        } else {
            None
        }
    }

    /// Label of the page: the group name, followed by `/<page>` on further pages.
    pub fn to_string(&self) -> (label: String)
        ensures
            label@ == self@.label(),
    {
        let mut label = self.group.clone();
        if self.page > 1 {
            proof {
                reveal_strlit("/");
            }
            label.append("/");
            let number = decimal_text(self.page as u128);
            label.append(number.as_str());
            assert(label@ =~= self@.label());
        }
        label
    }

    /// Whether two keys identify the same page.
    pub fn same_page(&self, other: &PageKey) -> (same: bool)
        ensures
            same == (self@ == other@),
    {
        self.page == other.page && same_text(self.group.as_str(), other.group.as_str())
    }
}

/// A page's label reads back as the page, unless the label of a further page happens to be the
/// name of a group itself, which takes precedence.
pub proof fn law_label_reads_back(key: PageKeyView, is_group: spec_fn(Seq<char>) -> bool)
    requires
        key.page >= 1,
        is_group(key.group),
        key.page >= 2 ==> !is_group(key.label()),
    ensures
        parsed_label(key.label(), is_group) == Some(key),
{
    if key.page >= 2 {
        lemma_split_label(key);
    }
}

/// A label of a further page is split into its group and page.
pub proof fn lemma_split_label(key: PageKeyView)
    requires
        key.page >= 2,
    ensures
        split_label(key.label()) == Some(key),
{
    let label = key.label();
    let digits = crate::text::decimal(key.page as nat);
    let slash = key.group.len() as int;
    crate::text::lemma_decimal_read_back(key.page as nat);
    crate::text::lemma_unsigned_read_back(key.page);
    assert(label[slash] == '/');
    assert forall|i: int| slash < i < label.len() implies label[i] != '/' by {
        assert(label[i] == digits[i - slash - 1]);
        assert(crate::text::is_digit(digits[i - slash - 1]));
    }
    crate::text::lemma_last_position(label, '/', slash);
    assert(label.skip(slash + 1) =~= digits);
    assert(label.take(slash) =~= key.group);
}

/// Two further pages with the same label are the same page.
pub proof fn law_labels_are_distinct(a: PageKeyView, b: PageKeyView)
    requires
        a.page >= 2,
        b.page >= 2,
        a.label() == b.label(),
    ensures
        a == b,
{
    lemma_split_label(a);
    lemma_split_label(b);
}

} // verus!
