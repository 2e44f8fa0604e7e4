//! Stable sorting by keys that are compared from left to right.
use vstd::prelude::*;

verus! {

/// Sort key. The first part that differs decides, the smaller one goes first.
#[derive(Clone, Copy, Debug, PartialEq, Eq, Structural)]
pub struct SortKey {
    pub a: i128,
    pub b: i128,
    pub c: i128,
    pub d: i128,
}

impl SortKey {
    /// Whether a key comes before another, or is the same.
    pub open spec fn at_most(self, other: SortKey) -> bool {
        ||| self.a < other.a
        ||| self.a == other.a && self.b < other.b
        ||| self.a == other.a && self.b == other.b && self.c < other.c
        ||| self.a == other.a && self.b == other.b && self.c == other.c && self.d <= other.d
    }

    pub fn is_at_most(&self, other: &SortKey) -> (result: bool)
        ensures
            result == self.at_most(*other),
    {
        if self.a != other.a {
            self.a < other.a
        } else if self.b != other.b {
            self.b < other.b
        } else if self.c != other.c {
            self.c < other.c
        } else {
            self.d <= other.d
        }
    }
}

/// An item with the key that it is sorted by.
pub struct Ranked<T> {
    pub key: SortKey,
    pub item: T,
}

/// Inserts an item behind every item whose key isn't larger than its own.
pub open spec fn insert_ranked<T>(sorted: Seq<Ranked<T>>, entry: Ranked<T>) -> Seq<Ranked<T>>
    decreases sorted.len(),
{
    if sorted.len() == 0 || sorted.last().key.at_most(entry.key) {
        sorted.push(entry)
    } else {
        insert_ranked(sorted.drop_last(), entry).push(sorted.last())
    }
}

/// The items in ascending order of their keys, items with the same key in the order given.
pub open spec fn stable_sorted<T>(entries: Seq<Ranked<T>>) -> Seq<Ranked<T>>
    decreases entries.len(),
{
    if entries.len() == 0 {
        Seq::empty()
    } else {
        insert_ranked(stable_sorted(entries.drop_last()), entries.last())
    }
}

pub open spec fn is_sorted<T>(entries: Seq<Ranked<T>>) -> bool {
    forall|i: int, j: int|
        0 <= i < j < entries.len() ==> (#[trigger] entries[i]).key.at_most(
            (#[trigger] entries[j]).key,
        )
}

/// Sorts items by their keys. Items with the same key keep their order.
pub fn sort_ranked<T>(entries: Vec<Ranked<T>>) -> (sorted: Vec<Ranked<T>>)
    ensures
        sorted@ == stable_sorted(entries@),
{
    let ghost input = entries@;
    let mut rest = entries;
    let mut sorted: Vec<Ranked<T>> = Vec::new();
    let ghost mut done: int = 0;
    assert(input.take(0) =~= Seq::empty());
    assert(input.skip(0) =~= input);
    while rest.len() > 0
        invariant
            0 <= done <= input.len(),
            rest@ == input.skip(done),
            sorted@ == stable_sorted(input.take(done)),
        decreases rest@.len(),
    {
        let entry = rest.remove(0);
        proof {
            assert(entry == input[done]);
            assert(rest@ =~= input.skip(done + 1));
            assert(input.take(done + 1).drop_last() =~= input.take(done));
            assert(input.take(done + 1).last() == entry);
        }
        let ghost before = sorted@;
        let mut position: usize = sorted.len();
        assert(before.take(position as int) =~= before);
        assert(before.skip(position as int) =~= Seq::empty());
        assert(insert_ranked(before.take(position as int), entry) + before.skip(position as int)
            =~= insert_ranked(before, entry));
        while position > 0 && !sorted[position - 1].key.is_at_most(&entry.key)
            invariant
                position <= sorted@.len(),
                sorted@ == before,
                insert_ranked(before.take(position as int), entry) + before.skip(position as int)
                    == insert_ranked(before, entry),
            decreases position,
        {
            proof {
                let head = before.take(position as int);
                assert(head.last() == before[position - 1]);
                assert(head.drop_last() =~= before.take(position - 1));
                assert(before.skip(position - 1) =~= seq![before[position - 1]] + before.skip(
                    position as int,
                ));
                assert(insert_ranked(before.take(position - 1), entry) + before.skip(position - 1)
                    =~= insert_ranked(head, entry) + before.skip(position as int));
            }
            position = position - 1;
        }
        proof {
            let head = before.take(position as int);
            if position > 0 {
                assert(head.last() == before[position - 1]);
            }
            assert(insert_ranked(head, entry) =~= head.push(entry));
            assert(before.insert(position as int, entry) =~= head.push(entry) + before.skip(
                position as int,
            ));
        }
        sorted.insert(position, entry);
        proof {
            done = done + 1;
        }
    }
    assert(input.take(done) =~= input);
    sorted
}

/// The entries with each item mapped to another value, under the same key.
pub open spec fn map_items<T, U>(entries: Seq<Ranked<T>>, f: spec_fn(T) -> U) -> Seq<Ranked<U>> {
    Seq::new(entries.len(), |i: int| Ranked { key: entries[i].key, item: f(entries[i].item) })
}

proof fn lemma_insert_maps<T, U>(sorted: Seq<Ranked<T>>, entry: Ranked<T>, f: spec_fn(T) -> U)
    ensures
        map_items(insert_ranked(sorted, entry), f) == insert_ranked(
            map_items(sorted, f),
            Ranked { key: entry.key, item: f(entry.item) },
        ),
    decreases sorted.len(),
{
    let mapped = map_items(sorted, f);
    let mapped_entry = Ranked { key: entry.key, item: f(entry.item) };
    if sorted.len() == 0 || sorted.last().key.at_most(entry.key) {
        assert(map_items(sorted.push(entry), f) =~= mapped.push(mapped_entry));
    } else {
        lemma_insert_maps(sorted.drop_last(), entry, f);
        assert(map_items(sorted.drop_last(), f) =~= mapped.drop_last());
        assert(map_items(insert_ranked(sorted, entry), f) =~= map_items(
            insert_ranked(sorted.drop_last(), entry),
            f,
        ).push(mapped.last()));
    }
}

/// Sorting depends on the keys alone: mapping the items makes no difference to the order.
pub proof fn lemma_sorting_maps<T, U>(entries: Seq<Ranked<T>>, f: spec_fn(T) -> U)
    ensures
        map_items(stable_sorted(entries), f) == stable_sorted(map_items(entries, f)),
    decreases entries.len(),
{
    if entries.len() == 0 {
        assert(map_items(stable_sorted(entries), f) =~= Seq::empty());
    } else {
        lemma_sorting_maps(entries.drop_last(), f);
        lemma_insert_maps(stable_sorted(entries.drop_last()), entries.last(), f);
        assert(map_items(entries, f).drop_last() =~= map_items(entries.drop_last(), f));
    }
}

proof fn lemma_insert_ranked<T>(sorted: Seq<Ranked<T>>, entry: Ranked<T>)
    requires
        is_sorted(sorted),
    ensures
        is_sorted(insert_ranked(sorted, entry)),
        insert_ranked(sorted, entry).len() == sorted.len() + 1,
        insert_ranked(sorted, entry).to_multiset() =~= sorted.to_multiset().insert(entry),
        insert_ranked(sorted, entry).last() == sorted.last() || insert_ranked(sorted, entry).last()
            == entry,
    decreases sorted.len(),
{
    broadcast use vstd::seq_lib::group_to_multiset_ensures;

    if sorted.len() == 0 || sorted.last().key.at_most(entry.key) {
        assert(sorted.push(entry).to_multiset() =~= sorted.to_multiset().insert(entry));
        assert forall|i: int, j: int| 0 <= i < j < sorted.push(entry).len() implies (
        #[trigger] sorted.push(entry)[i]).key.at_most((#[trigger] sorted.push(entry)[j]).key) by {
            if j == sorted.len() {
                assert(sorted[i].key.at_most(sorted.last().key));
            }
        }
    } else {
        let rest = sorted.drop_last();
        assert forall|i: int, j: int| 0 <= i < j < rest.len() implies (#[trigger] rest[i]).key.at_most(
            (#[trigger] rest[j]).key,
        ) by {
            assert(sorted[i].key.at_most(sorted[j].key));
        }
        lemma_insert_ranked(rest, entry);
        let inserted = insert_ranked(rest, entry);
        let result = inserted.push(sorted.last());
        assert(result.to_multiset() =~= inserted.to_multiset().insert(sorted.last()));
        assert(sorted =~= rest.push(sorted.last()));
        assert(sorted.to_multiset() =~= rest.to_multiset().insert(sorted.last()));
        assert forall|i: int, j: int| 0 <= i < j < result.len() implies (#[trigger] result[i]).key.at_most(
            (#[trigger] result[j]).key,
        ) by {
            if j == inserted.len() {
                if rest.len() > 0 {
                    assert(sorted[rest.len() - 1].key.at_most(sorted[sorted.len() - 1].key));
                }
                assert(inserted.last().key.at_most(sorted.last().key));
                if i < inserted.len() - 1 {
                    assert(inserted[i].key.at_most(inserted[inserted.len() - 1].key));
                }
            }
        }
    }
}

/// Sorting keeps exactly the items given and puts them in ascending order of their keys.
pub proof fn law_sorting_orders_and_keeps<T>(entries: Seq<Ranked<T>>)
    ensures
        is_sorted(stable_sorted(entries)),
        stable_sorted(entries).len() == entries.len(),
        stable_sorted(entries).to_multiset() =~= entries.to_multiset(),
    decreases entries.len(),
{
    broadcast use vstd::seq_lib::group_to_multiset_ensures;

    if entries.len() > 0 {
        law_sorting_orders_and_keeps(entries.drop_last());
        lemma_insert_ranked(stable_sorted(entries.drop_last()), entries.last());
        assert(entries =~= entries.drop_last().push(entries.last()));
    } else {
        assert(entries =~= Seq::empty());
    }
}

/// Distinct entries stay distinct.
pub proof fn lemma_sorting_keeps_distinct<T>(entries: Seq<Ranked<T>>)
    requires
        entries.no_duplicates(),
    ensures
        stable_sorted(entries).no_duplicates(),
{
    law_sorting_orders_and_keeps(entries);
    entries.lemma_multiset_has_no_duplicates();
    stable_sorted(entries).lemma_multiset_has_no_duplicates_conv();
}

/// Sorting neither adds nor loses entries.
pub proof fn lemma_sorting_keeps<T>(entries: Seq<Ranked<T>>)
    ensures
        stable_sorted(entries).len() == entries.len(),
        forall|k: int|
            0 <= k < entries.len() ==> entries.contains(#[trigger] stable_sorted(entries)[k]),
        forall|k: int|
            0 <= k < entries.len() ==> stable_sorted(entries).contains(#[trigger] entries[k]),
{
    broadcast use vstd::seq_lib::group_to_multiset_ensures;

    law_sorting_orders_and_keeps(entries);
    let sorted = stable_sorted(entries);
    assert forall|k: int| 0 <= k < entries.len() implies entries.contains(#[trigger] sorted[k]) by {
        assert(sorted.contains(sorted[k]));
        assert(sorted.to_multiset().contains(sorted[k]));
    }
    assert forall|k: int| 0 <= k < entries.len() implies sorted.contains(#[trigger] entries[k]) by {
        assert(entries.contains(entries[k]));
        assert(entries.to_multiset().contains(entries[k]));
    }
}

/// The entries whose key is the given one, in order.
pub open spec fn with_key<T>(entries: Seq<Ranked<T>>, key: SortKey) -> Seq<Ranked<T>>
    decreases entries.len(),
{
    if entries.len() == 0 {
        Seq::empty()
    } else if entries.last().key == key {
        with_key(entries.drop_last(), key).push(entries.last())
    } else {
        with_key(entries.drop_last(), key)
    }
}

proof fn lemma_insert_keeps_order<T>(sorted: Seq<Ranked<T>>, entry: Ranked<T>, key: SortKey)
    requires
        is_sorted(sorted),
    ensures
        with_key(insert_ranked(sorted, entry), key) == if entry.key == key {
            with_key(sorted, key).push(entry)
        } else {
            with_key(sorted, key)
        },
    decreases sorted.len(),
{
    if sorted.len() == 0 || sorted.last().key.at_most(entry.key) {
        assert(sorted.push(entry).drop_last() =~= sorted);
    } else {
        let rest = sorted.drop_last();
        assert forall|i: int, j: int| 0 <= i < j < rest.len() implies (#[trigger] rest[i]).key.at_most(
            (#[trigger] rest[j]).key,
        ) by {
            assert(sorted[i].key.at_most(sorted[j].key));
        }
        lemma_insert_keeps_order(rest, entry, key);
        let inserted = insert_ranked(rest, entry);
        assert(inserted.push(sorted.last()).drop_last() =~= inserted);
    }
}

/// Sorting is stable: items with the same key stay in the order in which they were given.
pub proof fn law_sorting_is_stable<T>(entries: Seq<Ranked<T>>, key: SortKey)
    ensures
        with_key(stable_sorted(entries), key) == with_key(entries, key),
    decreases entries.len(),
{
    if entries.len() > 0 {
        law_sorting_is_stable(entries.drop_last(), key);
        law_sorting_orders_and_keeps(entries.drop_last());
        lemma_insert_keeps_order(stable_sorted(entries.drop_last()), entries.last(), key);
    }
}

/// An entry is inserted at the one place that keeps the order, behind entries with the same key.
pub proof fn lemma_insert_place<T>(sorted: Seq<Ranked<T>>, entry: Ranked<T>) -> (at: int)
    requires
        is_sorted(sorted),
    ensures
        0 <= at <= sorted.len(),
        insert_ranked(sorted, entry) == sorted.insert(at, entry),
        forall|p: int| 0 <= p < at ==> (#[trigger] sorted[p]).key.at_most(entry.key),
        forall|p: int| at <= p < sorted.len() ==> !(#[trigger] sorted[p]).key.at_most(entry.key),
    decreases sorted.len(),
{
    if sorted.len() == 0 {
        assert(insert_ranked(sorted, entry) =~= sorted.insert(0, entry));
        0
    } else if sorted.last().key.at_most(entry.key) {
        assert(insert_ranked(sorted, entry) =~= sorted.insert(sorted.len() as int, entry));
        assert forall|p: int| 0 <= p < sorted.len() implies (#[trigger] sorted[p]).key.at_most(
            entry.key,
        ) by {
            if p < sorted.len() - 1 {
                assert(sorted[p].key.at_most(sorted[sorted.len() - 1].key));
            }
        }
        sorted.len() as int
    } else {
        let rest = sorted.drop_last();
        let at = lemma_insert_place(rest, entry);
        assert(insert_ranked(sorted, entry) =~= sorted.insert(at, entry));
        assert forall|p: int| at <= p < sorted.len() implies !(
        #[trigger] sorted[p]).key.at_most(entry.key) by {
            if p < sorted.len() - 1 {
                assert(sorted[p] == rest[p]);
            }
        }
        assert forall|p: int| 0 <= p < at implies (#[trigger] sorted[p]).key.at_most(
            entry.key,
        ) by {
            assert(sorted[p] == rest[p]);
        }
        at
    }
}

/// Whether the entry at position `k` comes before that at position `l` once sorted.
pub open spec fn comes_before<T>(entries: Seq<Ranked<T>>, k: int, l: int) -> bool {
    if k < l {
        entries[k].key.at_most(entries[l].key)
    } else {
        !entries[l].key.at_most(entries[k].key)
    }
}

/// Where the entry at a sorted position came from. Of two sorted entries, the first one comes
/// before the other by its key, or by its position among entries with the same key.
pub proof fn lemma_sorted_origins<T>(entries: Seq<Ranked<T>>) -> (origins: Seq<int>)
    ensures
        origins.len() == entries.len(),
        forall|p: int|
            0 <= p < origins.len() ==> 0 <= #[trigger] origins[p] < entries.len()
                && stable_sorted(entries)[p] == entries[origins[p]],
        forall|p: int, q: int|
            0 <= p < q < origins.len() ==> origins[p] != origins[q] && comes_before(
                entries,
                #[trigger] origins[p],
                #[trigger] origins[q],
            ),
    decreases entries.len(),
{
    if entries.len() == 0 {
        Seq::empty()
    } else {
        let rest = entries.drop_last();
        let last = entries.len() - 1;
        let inner = lemma_sorted_origins(rest);
        law_sorting_orders_and_keeps(rest);
        law_sorting_orders_and_keeps(entries);
        let sorted = stable_sorted(rest);
        let at = lemma_insert_place(sorted, entries.last());
        let origins = inner.insert(at, last);
        assert forall|p: int| 0 <= p < origins.len() implies 0 <= #[trigger] origins[p]
            < entries.len() && stable_sorted(entries)[p] == entries[origins[p]] by {
            if p < at {
                assert(origins[p] == inner[p]);
                assert(rest[inner[p]] == entries[inner[p]]);
            } else if p > at {
                assert(origins[p] == inner[p - 1]);
                assert(rest[inner[p - 1]] == entries[inner[p - 1]]);
            }
        }
        assert forall|p: int, q: int| 0 <= p < q < origins.len() implies origins[p] != origins[q]
            && comes_before(entries, #[trigger] origins[p], #[trigger] origins[q]) by {
            let x = if p < at {
                p
            } else {
                p - 1
            };
            let y = if q < at {
                q
            } else {
                q - 1
            };
            if p == at {
                assert(origins[q] == inner[y]);
                assert(sorted[y] == rest[inner[y]]);
                assert(!sorted[y].key.at_most(entries.last().key));
            } else if q == at {
                assert(origins[p] == inner[x]);
                assert(sorted[x] == rest[inner[x]]);
                assert(sorted[x].key.at_most(entries.last().key));
            } else {
                assert(origins[p] == inner[x] && origins[q] == inner[y]);
                assert(comes_before(rest, inner[x], inner[y]));
            }
        }
        origins
    }
}

/// Two lists of the same items are sorted alike if the keys of any two entries compare alike.
pub proof fn lemma_sorted_alike<T>(a: Seq<Ranked<T>>, b: Seq<Ranked<T>>)
    requires
        a.len() == b.len(),
        forall|k: int| 0 <= k < a.len() ==> (#[trigger] a[k]).item == b[k].item,
        forall|k: int, l: int|
            0 <= k < l < a.len() ==> (#[trigger] a[k]).key.at_most((#[trigger] a[l]).key)
                == b[k].key.at_most(b[l].key),
    ensures
        forall|p: int|
            0 <= p < a.len() ==> (#[trigger] stable_sorted(a)[p]).item == stable_sorted(b)[p].item,
{
    lemma_sorted_alike_origins(a, b);
}

/// Lists that compare alike are sorted by the same rearrangement.
proof fn lemma_sorted_alike_origins<T>(a: Seq<Ranked<T>>, b: Seq<Ranked<T>>) -> (origins: Seq<int>)
    requires
        a.len() == b.len(),
        forall|k: int| 0 <= k < a.len() ==> (#[trigger] a[k]).item == b[k].item,
        forall|k: int, l: int|
            0 <= k < l < a.len() ==> (#[trigger] a[k]).key.at_most((#[trigger] a[l]).key)
                == b[k].key.at_most(b[l].key),
    ensures
        origins.len() == a.len(),
        forall|p: int|
            0 <= p < a.len() ==> 0 <= #[trigger] origins[p] < a.len() && stable_sorted(a)[p]
                == a[origins[p]] && stable_sorted(b)[p] == b[origins[p]],
        forall|p: int|
            0 <= p < a.len() ==> (#[trigger] stable_sorted(a)[p]).item == stable_sorted(b)[p].item,
        stable_sorted(a).len() == a.len(),
        stable_sorted(b).len() == a.len(),
    decreases a.len(),
{
    law_sorting_orders_and_keeps(a);
    law_sorting_orders_and_keeps(b);
    if a.len() == 0 {
        Seq::empty()
    } else {
        let (x, y) = (a.drop_last(), b.drop_last());
        let last = a.len() - 1;
        assert forall|k: int, l: int| 0 <= k < l < x.len() implies (#[trigger] x[k]).key.at_most(
            (#[trigger] x[l]).key,
        ) == y[k].key.at_most(y[l].key) by {
            assert(a[k].key.at_most(a[l].key) == b[k].key.at_most(b[l].key));
        }
        let inner = lemma_sorted_alike_origins(x, y);
        law_sorting_orders_and_keeps(x);
        law_sorting_orders_and_keeps(y);
        let (s, r) = (stable_sorted(x), stable_sorted(y));
        let at = lemma_insert_place(s, a.last());
        let bt = lemma_insert_place(r, b.last());
        assert forall|p: int| 0 <= p < x.len() implies (#[trigger] s[p]).key.at_most(a.last().key)
            == r[p].key.at_most(b.last().key) by {
            let k = inner[p];
            assert(s[p] == x[k] && r[p] == y[k]);
            assert(a[k].key.at_most(a[last].key) == b[k].key.at_most(b[last].key));
        }
        assert(at == bt) by {
            if at < bt {
                assert(s[at].key.at_most(a.last().key) == r[at].key.at_most(b.last().key));
            } else if bt < at {
                assert(s[bt].key.at_most(a.last().key) == r[bt].key.at_most(b.last().key));
            }
        }
        let origins = inner.insert(at, last);
        assert forall|p: int| 0 <= p < a.len() implies 0 <= #[trigger] origins[p] < a.len()
            && stable_sorted(a)[p] == a[origins[p]] && stable_sorted(b)[p] == b[origins[p]] by {
            if p < at {
                assert(origins[p] == inner[p]);
            } else if p > at {
                assert(origins[p] == inner[p - 1]);
            }
        }
        assert forall|p: int| 0 <= p < a.len() implies (#[trigger] stable_sorted(a)[p]).item
            == stable_sorted(b)[p].item by {
            assert(stable_sorted(a)[p] == a[origins[p]]);
        }
        origins
    }
}

} // verus!
