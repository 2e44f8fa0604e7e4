//! Orders of identifiers from most to least recently focused.
use vstd::prelude::*;

use crate::monitor::position_view;

verus! {

/// First position from `from` on that holds the given identifier.
pub open spec fn id_position(ids: Seq<u128>, id: u128, from: int) -> Option<int>
    decreases ids.len() - from,
{
    if from < 0 || from >= ids.len() {
        None
    } else if ids[from] == id {
        Some(from)
    } else {
        id_position(ids, id, from + 1)
    }
}

/// The order without an identifier.
pub open spec fn without(ids: Seq<u128>, id: u128) -> Seq<u128> {
    match id_position(ids, id, 0) {
        Some(at) => ids.remove(at),
        None => ids,
    }
}

/// The order with an identifier moved to the front. An identifier that isn't part of the order
/// isn't added to it.
pub open spec fn moved_to_front(ids: Seq<u128>, id: u128) -> Seq<u128> {
    match id_position(ids, id, 0) {
        Some(at) => seq![id] + ids.remove(at),
        None => ids,
    }
}

pub proof fn lemma_id_position(ids: Seq<u128>, id: u128, from: int)
    requires
        0 <= from,
    ensures
        id_position(ids, id, from) matches Some(at) ==> from <= at < ids.len() && ids[at] == id,
        id_position(ids, id, from) is None ==> forall|j: int|
            from <= j < ids.len() ==> ids[j] != id,
    decreases ids.len() - from,
{
    if from < ids.len() && ids[from] != id {
        lemma_id_position(ids, id, from + 1);
    }
}

/// Finds an identifier.
pub fn find_id(ids: &Vec<u128>, id: u128) -> (position: Option<usize>)
    ensures
        position_view(position) == id_position(ids@, id, 0),
        position matches Some(at) ==> at < ids@.len() && ids@[at as int] == id,
{
    let mut i: usize = 0;
    while i < ids.len()
        invariant
            i <= ids@.len(),
            id_position(ids@, id, 0) == id_position(ids@, id, i as int),
        decreases ids@.len() - i,
    {
        if ids[i] == id {
            return Some(i);
        }
        i = i + 1;
    }
    None
}

/// Removes an identifier.
pub fn forget(ids: &mut Vec<u128>, id: u128)
    ensures
        final(ids)@ == without(old(ids)@, id),
{
    match find_id(ids, id) {
        Some(at) => {
            ids.remove(at);
        },
        None => {},
    }
}

/// Moves an identifier to the front.
pub fn bump(ids: &mut Vec<u128>, id: u128)
    ensures
        final(ids)@ == moved_to_front(old(ids)@, id),
{
    match find_id(ids, id) {
        Some(at) => {
            ids.remove(at);
            ids.insert(0, id);
            assert(ids@ =~= moved_to_front(old(ids)@, id));
        },
        None => {},
    }
}

/// Moving an identifier to the front keeps exactly the identifiers of the order, and puts a
/// contained one first.
pub proof fn law_bump_keeps_ids(ids: Seq<u128>, id: u128)
    ensures
        moved_to_front(ids, id).to_multiset() =~= ids.to_multiset(),
        ids.contains(id) ==> moved_to_front(ids, id)[0] == id,
{
    broadcast use vstd::seq_lib::group_to_multiset_ensures;

    lemma_id_position(ids, id, 0);
    match id_position(ids, id, 0) {
        Some(at) => {
            vstd::seq_lib::to_multiset_remove(ids, at);
            let rest = ids.remove(at);
            assert(seq![id] + rest =~= rest.insert(0, id));
            vstd::seq_lib::to_multiset_insert(rest, 0, id);
            assert(ids.contains(ids[at]));
            assert(ids.to_multiset().contains(id));
            assert(ids.to_multiset().remove(id).insert(id) =~= ids.to_multiset());
        },
        None => {},
    }
}

} // verus!
