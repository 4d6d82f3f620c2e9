//! What holds when operations on the store are combined.
//!
//! Each law is stated over [`StoreView`], the value in which the contracts of
//! the operations of [`crate::store::Store`] describe the store before and
//! after a call.

use vstd::prelude::*;
use crate::models::{Error, ItemView, ListItemView, ListView, Timestamp};
use crate::store::Edge;
use crate::view::{edges_for, lemma_filter_all, lemma_filter_none, of_list, of_other_list, StoreView};

verus! {

/// The item and the amount of each entry, without the names.
pub open spec fn pairs(entries: Seq<ListItemView>) -> Seq<(i64, i64)> {
    entries.map_values(|entry: ListItemView| (entry.id, entry.amount))
}

/// An item that was created is found under the identity it was given, with
/// the name it was created with.
pub proof fn law_created_item_is_found(s: StoreView, name: Seq<char>)
    requires
        s.wf(),
        s.next_item_id < i64::MAX,
    ensures
        s.with_item(name).get_item(s.next_item_id) == Ok::<ItemView, Error>(ItemView { id: s.next_item_id, name }),
{
    let t = s.with_item(name);
    s.lemma_with_item_wf(name);
    t.lemma_item_index(s.next_item_id, s.items.len() as int);
}

/// A list that was created is found under the identity it was given, with
/// its name and time of creation, not finished, and with whatever edges the
/// composition table already held for that identity.
pub proof fn law_created_list_is_found(s: StoreView, name: Seq<char>, t: Timestamp)
    requires
        s.wf(),
        s.next_list_id < i64::MAX,
    ensures
        s.with_list(name, t).get_list(s.next_list_id) == Ok::<ListView, Error>(
            ListView { id: s.next_list_id, name, created: t, finished: None, items: s.composition(s.next_list_id) },
        ),
{
    let n = s.with_list(name, t);
    s.lemma_with_list_wf(name, t);
    n.lemma_list_index(s.next_list_id, s.lists.len() as int);
    lemma_entries_agree(s, n, s.edges_of(s.next_list_id));
}

/// Deleting an item that the catalog does not have changes nothing; so
/// deleting an item a second time changes nothing.
pub proof fn law_delete_is_idempotent(s: StoreView, id: i64)
    requires
        s.wf(),
    ensures
        !s.has_item(id) ==> s.without_item(id) == s,
        s.without_item(id).without_item(id) == s.without_item(id),
{
    s.lemma_without_item_wf(id);
}

/// After the composition of a list was replaced by a batch, the list has
/// exactly the edges of the batch, and its composition shows the items and
/// amounts of the batch in the order of the batch, whatever the list held
/// before. Where the list exists, fetching it shows that composition.
pub proof fn law_replaced_composition_is_fetched(s: StoreView, list_id: i64, batch: Seq<ListItemView>)
    ensures
        s.with_composition(list_id, batch).edges_of(list_id) == edges_for(list_id, batch),
        pairs(s.with_composition(list_id, batch).composition(list_id)) == pairs(batch),
        s.with_composition(list_id, batch).has_list(list_id) == s.has_list(list_id),
        s.has_list(list_id) ==> (match s.with_composition(list_id, batch).get_list(list_id) {
            Ok(list) => pairs(list.items) == pairs(batch),
            Err(_) => false,
        }),
{
    let t = s.with_composition(list_id, batch);
    let kept = s.edges.filter(of_other_list(list_id));
    let added = edges_for(list_id, batch);
    assert forall|i: int| 0 <= i < kept.len() implies !of_list(list_id)(#[trigger] kept[i]) by {
        s.edges.lemma_filter_pred(of_other_list(list_id), i);
    }
    lemma_filter_none(kept, of_list(list_id));
    lemma_filter_all(added, of_list(list_id));
    Seq::filter_distributes_over_add(kept, added, of_list(list_id));
}

/// Replacing the composition of one list leaves the edges of every other
/// list as they were.
pub proof fn law_replace_leaves_other_lists(s: StoreView, list_id: i64, batch: Seq<ListItemView>, other: i64)
    requires
        other != list_id,
    ensures
        s.with_composition(list_id, batch).edges_of(other) == s.edges_of(other),
        s.with_composition(list_id, batch).composition(other) == s.composition(other),
{
    let t = s.with_composition(list_id, batch);
    let kept = s.edges.filter(of_other_list(list_id));
    let added = edges_for(list_id, batch);
    lemma_filter_none(added, of_list(other));
    Seq::filter_distributes_over_add(kept, added, of_list(other));
    lemma_filter_twice(s.edges, list_id, other);
    lemma_entries_agree(s, t, s.edges_of(other));
}

/// A list that was finished shows the time at which it was finished last:
/// finishing it again succeeds and overwrites the time, so where the second
/// time lies after the first, the list shows a later time than it did. Its
/// name, its time of creation and its composition stay.
pub proof fn law_finished_list_shows_last_time(s: StoreView, id: i64, first: Timestamp, second: Timestamp)
    requires
        s.wf(),
        s.has_list(id),
    ensures
        s.with_finished(id, first).has_list(id),
        s.with_finished(id, first).get_list(id) == Ok::<ListView, Error>(
            ListView { finished: Some(first), ..s.get_list(id)->Ok_0 },
        ),
        s.with_finished(id, first).with_finished(id, second).get_list(id) == Ok::<ListView, Error>(
            ListView { finished: Some(second), ..s.get_list(id)->Ok_0 },
        ),
        first.is_before(second) ==> s.with_finished(id, first).get_list(id)->Ok_0.finished->Some_0.is_before(
            s.with_finished(id, first).with_finished(id, second).get_list(id)->Ok_0.finished->Some_0,
        ),
{
    lemma_finished_once(s, id, first);
    let n = s.with_finished(id, first);
    s.lemma_with_finished_wf(id, first);
    lemma_finished_once(n, id, second);
}

/// List `id` exists and is finished.
pub open spec fn is_finished(s: StoreView, id: i64) -> bool {
    s.has_list(id) && s.lists[s.list_index(id)].finished is Some
}

/// A finished list stays finished, whatever is done to the store.
pub proof fn law_finished_is_terminal(
    s: StoreView,
    id: i64,
    name: Seq<char>,
    t: Timestamp,
    other: i64,
    batch: Seq<ListItemView>,
)
    requires
        s.wf(),
        is_finished(s, id),
    ensures
        is_finished(s.with_item(name), id),
        is_finished(s.without_item(other), id),
        s.next_list_id < i64::MAX ==> is_finished(s.with_list(name, t), id),
        is_finished(s.with_finished(other, t), id),
        is_finished(s.with_composition(other, batch), id),
{
    let k = s.list_index(id);
    if s.next_list_id < i64::MAX {
        s.lemma_with_list_wf(name, t);
        s.with_list(name, t).lemma_list_index(id, k);
    }
    s.lemma_with_finished_wf(other, t);
    s.with_finished(other, t).lemma_list_index(id, k);
}

/// The edges of a list change only when its composition is replaced:
/// creating and deleting items, creating lists and finishing them leave every
/// edge as it was.
pub proof fn law_edges_change_only_by_replace(s: StoreView, id: i64, name: Seq<char>, t: Timestamp)
    ensures
        s.with_item(name).edges == s.edges,
        s.without_item(id).edges == s.edges,
        s.with_list(name, t).edges == s.edges,
        s.with_finished(id, t).edges == s.edges,
{
}

/// Deleting an item leaves every edge in place, also those that name the
/// item: a list that could be fetched before can be fetched after, and its
/// composition shows the same items and amounts. The entries of the deleted
/// item show an empty name, the others the name they showed before.
pub proof fn law_delete_keeps_compositions(s: StoreView, item_id: i64, list_id: i64)
    requires
        s.wf(),
    ensures
        s.without_item(item_id).edges == s.edges,
        s.without_item(item_id).lists == s.lists,
        s.without_item(item_id).has_list(list_id) == s.has_list(list_id),
        pairs(s.without_item(item_id).composition(list_id)) == pairs(s.composition(list_id)),
        s.has_list(list_id) ==> (match s.without_item(item_id).get_list(list_id) {
            Ok(list) => pairs(list.items) == pairs(s.composition(list_id)),
            Err(_) => false,
        }),
        forall|k: int|
            0 <= k < s.composition(list_id).len() ==> (#[trigger] s.without_item(item_id).composition(list_id)[k]).name == (
            if s.composition(list_id)[k].id == item_id {
                Seq::<char>::empty()
            } else {
                s.composition(list_id)[k].name
            }),
{
    let t = s.without_item(item_id);
    s.lemma_without_item_wf(item_id);
    assert forall|k: int| 0 <= k < s.composition(list_id).len() implies (#[trigger] t.composition(list_id)[k]).name == (
    if s.composition(list_id)[k].id == item_id {
        Seq::<char>::empty()
    } else {
        s.composition(list_id)[k].name
    }) by {
        let other = s.composition(list_id)[k].id;
        if other != item_id {
            lemma_delete_keeps_other_names(s, item_id, other);
        }
    }
}

/// Deleting item `item_id` leaves the catalog name of every other item.
proof fn lemma_delete_keeps_other_names(s: StoreView, item_id: i64, other: i64)
    requires
        s.wf(),
        other != item_id,
    ensures
        s.without_item(item_id).has_item(other) == s.has_item(other),
        s.without_item(item_id).item_name(other) == s.item_name(other),
{
    let t = s.without_item(item_id);
    s.lemma_without_item_wf(item_id);
    if s.has_item(item_id) {
        let k = s.item_index(item_id);
        if s.has_item(other) {
            let m = s.item_index(other);
            let pos = if m < k { m } else { m - 1 };
            t.lemma_item_index(other, pos);
        }
        if t.has_item(other) {
            let m = t.item_index(other);
            let pos = if m < k { m } else { m + 1 };
            s.lemma_item_index(other, pos);
        }
    }
}

/// Two stores with the same catalog show the same entries for the same edges.
proof fn lemma_entries_agree(s: StoreView, t: StoreView, edges: Seq<Edge>)
    requires
        s.items == t.items,
    ensures
        s.entries(edges) == t.entries(edges),
{
    assert forall|e: Edge| s.entry_of(e) == t.entry_of(e) by {}
}

/// Among the edges of the lists other than `list_id`, those of list `other`
/// are all the edges of list `other`.
proof fn lemma_filter_twice(edges: Seq<Edge>, list_id: i64, other: i64)
    requires
        other != list_id,
    ensures
        edges.filter(of_other_list(list_id)).filter(of_list(other)) == edges.filter(of_list(other)),
    decreases edges.len(),
{
    reveal(Seq::filter);
    if edges.len() > 0 {
        let rest = edges.drop_last();
        lemma_filter_twice(rest, list_id, other);
        let kept = rest.filter(of_other_list(list_id));
        if of_other_list(list_id)(edges.last()) {
            assert(kept.push(edges.last()).drop_last() =~= kept);
        }
    }
}

/// Finishing an existing list sets the time in what a fetch shows and leaves
/// the rest.
proof fn lemma_finished_once(s: StoreView, id: i64, t: Timestamp)
    requires
        s.wf(),
        s.has_list(id),
    ensures
        s.with_finished(id, t).has_list(id),
        s.with_finished(id, t).get_list(id) == Ok::<ListView, Error>(
            ListView { finished: Some(t), ..s.get_list(id)->Ok_0 },
        ),
{
    let n = s.with_finished(id, t);
    let k = s.list_index(id);
    s.lemma_with_finished_wf(id, t);
    n.lemma_list_index(id, k);
    lemma_entries_agree(s, n, s.edges_of(id));
}

} // verus!
