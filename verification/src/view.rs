//! The store as a mathematical value, and what each operation makes of it.

use vstd::prelude::*;
use crate::models::{Error, ItemView, ListItemView, ListView, Timestamp};
use crate::store::Edge;

verus! {

/// One row of the list table, as a mathematical value.
pub struct ListRowView {
    pub id: i64,
    pub name: Seq<char>,
    pub created: Timestamp,
    pub finished: Option<Timestamp>,
}

impl ListRowView {
    /// The row as a list without its composition.
    pub open spec fn summary(self) -> ListView {
        ListView { id: self.id, name: self.name, created: self.created, finished: self.finished, items: Seq::empty() }
    }

    /// The row with `finished` set to `t`.
    pub open spec fn finished_at(self, t: Timestamp) -> ListRowView {
        ListRowView { id: self.id, name: self.name, created: self.created, finished: Some(t) }
    }
}

/// Each of `rows` as a list without its composition.
pub open spec fn summaries_of(rows: Seq<ListRowView>) -> Seq<ListView> {
    rows.map_values(|row: ListRowView| row.summary())
}

/// The edge that stores batch entry `entry` for list `list_id`.
pub open spec fn edge_of(list_id: i64, entry: ListItemView) -> Edge {
    Edge { list_id, item_id: entry.id, amount: entry.amount }
}

/// The edges of `batch` for list `list_id`, entry by entry.
pub open spec fn edges_for(list_id: i64, batch: Seq<ListItemView>) -> Seq<Edge> {
    batch.map_values(|entry: ListItemView| edge_of(list_id, entry))
}

/// The edges that belong to list `list_id`.
pub open spec fn of_list(list_id: i64) -> spec_fn(Edge) -> bool {
    |e: Edge| e.list_id == list_id
}

/// The edges that belong to another list than `list_id`.
pub open spec fn of_other_list(list_id: i64) -> spec_fn(Edge) -> bool {
    |e: Edge| e.list_id != list_id
}

/// At most one edge of `edges` stands for each pair of list and item.
pub open spec fn pair_unique(edges: Seq<Edge>) -> bool {
    forall|i: int, j: int| 0 <= i < j < edges.len() ==> !((#[trigger] edges[i]).list_id == (#[trigger] edges[j]).list_id
        && edges[i].item_id == edges[j].item_id)
}

/// No two entries of `batch` name the same item.
pub open spec fn distinct_ids(batch: Seq<ListItemView>) -> bool {
    forall|i: int, j: int| 0 <= i < j < batch.len() ==> (#[trigger] batch[i]).id != (#[trigger] batch[j]).id
}

/// The state of the store as a mathematical value: the rows of the three
/// tables in the order in which they were inserted, and the identities that
/// the next item and the next list will get.
pub struct StoreView {
    pub items: Seq<ItemView>,
    pub lists: Seq<ListRowView>,
    pub edges: Seq<Edge>,
    pub next_item_id: i64,
    pub next_list_id: i64,
}

impl StoreView {
    /// The store with nothing in it; identities start at 1.
    pub open spec fn empty() -> StoreView {
        StoreView { items: Seq::empty(), lists: Seq::empty(), edges: Seq::empty(), next_item_id: 1, next_list_id: 1 }
    }

    /// The store that holds the given rows. The next identity of each table
    /// follows the last row's.
    pub open spec fn of_rows(items: Seq<ItemView>, lists: Seq<ListRowView>, edges: Seq<Edge>) -> StoreView {
        StoreView {
            items,
            lists,
            edges,
            next_item_id: if items.len() == 0 {
                1i64
            } else {
                (items.last().id + 1) as i64
            },
            next_list_id: if lists.len() == 0 {
                1i64
            } else {
                (lists.last().id + 1) as i64
            },
        }
    }

    /// The given rows can be the tables of a store: they keep the
    /// constraints, and an identity is left after the last of each table.
    pub open spec fn loadable(items: Seq<ItemView>, lists: Seq<ListRowView>, edges: Seq<Edge>) -> bool {
        &&& items.len() > 0 ==> items.last().id < i64::MAX
        &&& lists.len() > 0 ==> lists.last().id < i64::MAX
        &&& StoreView::of_rows(items, lists, edges).wf()
    }

    /// The constraints that the tables keep: identities are positive, were
    /// handed out in increasing order and are below the next one to be
    /// assigned, and at most one edge exists per pair of list and item.
    pub open spec fn wf(self) -> bool {
        &&& self.next_item_id >= 1
        &&& self.next_list_id >= 1
        &&& forall|i: int| 0 <= i < self.items.len() ==> 1 <= (#[trigger] self.items[i]).id < self.next_item_id
        &&& forall|i: int, j: int| 0 <= i < j < self.items.len() ==> (#[trigger] self.items[i]).id < (#[trigger] self.items[j]).id
        &&& forall|i: int| 0 <= i < self.lists.len() ==> 1 <= (#[trigger] self.lists[i]).id < self.next_list_id
        &&& forall|i: int, j: int| 0 <= i < j < self.lists.len() ==> (#[trigger] self.lists[i]).id < (#[trigger] self.lists[j]).id
        &&& pair_unique(self.edges)
    }

    /// The catalog has an item with identity `id`.
    pub open spec fn has_item(self, id: i64) -> bool {
        exists|i: int| 0 <= i < self.items.len() && (#[trigger] self.items[i]).id == id
    }

    /// Where in the catalog the item with identity `id` stands, if it has one.
    pub open spec fn item_index(self, id: i64) -> int {
        choose|i: int| 0 <= i < self.items.len() && (#[trigger] self.items[i]).id == id
    }

    /// The result of fetching item `id`.
    pub open spec fn get_item(self, id: i64) -> Result<ItemView, Error> {
        if self.has_item(id) {
            Ok(self.items[self.item_index(id)])
        } else {
            Err(Error::NotFound)
        }
    }

    /// The catalog name of item `id`; empty where the catalog has no such item.
    pub open spec fn item_name(self, id: i64) -> Seq<char> {
        if self.has_item(id) {
            self.items[self.item_index(id)].name
        } else {
            Seq::empty()
        }
    }

    /// The store after an item named `name` was created.
    pub open spec fn with_item(self, name: Seq<char>) -> StoreView {
        StoreView {
            items: self.items.push(ItemView { id: self.next_item_id, name }),
            next_item_id: (self.next_item_id + 1) as i64,
            ..self
        }
    }

    /// The store after item `id` was deleted: its row is gone from the
    /// catalog, and the two other tables are as they were.
    pub open spec fn without_item(self, id: i64) -> StoreView {
        if self.has_item(id) {
            StoreView { items: self.items.remove(self.item_index(id)), ..self }
        } else {
            self
        }
    }

    /// The list table has a list with identity `id`.
    pub open spec fn has_list(self, id: i64) -> bool {
        exists|i: int| 0 <= i < self.lists.len() && (#[trigger] self.lists[i]).id == id
    }

    /// Where in the list table the list with identity `id` stands, if it has one.
    pub open spec fn list_index(self, id: i64) -> int {
        choose|i: int| 0 <= i < self.lists.len() && (#[trigger] self.lists[i]).id == id
    }

    /// The edges of list `list_id`, in the order of the table.
    pub open spec fn edges_of(self, list_id: i64) -> Seq<Edge> {
        self.edges.filter(of_list(list_id))
    }

    /// What a fetch shows for edge `e`: the item's identity, its catalog name
    /// (empty where the item is gone) and the amount.
    pub open spec fn entry_of(self, e: Edge) -> ListItemView {
        ListItemView { id: e.item_id, name: self.item_name(e.item_id), amount: e.amount }
    }

    /// The composition of list `list_id`: one entry per edge of the list,
    /// whether or not the catalog still has the item.
    pub open spec fn composition(self, list_id: i64) -> Seq<ListItemView> {
        self.entries(self.edges_of(list_id))
    }

    /// What a fetch shows for each of `edges`.
    pub open spec fn entries(self, edges: Seq<Edge>) -> Seq<ListItemView> {
        edges.map_values(|e: Edge| self.entry_of(e))
    }

    /// The result of fetching list `id` with its composition.
    pub open spec fn get_list(self, id: i64) -> Result<ListView, Error> {
        if self.has_list(id) {
            let row = self.lists[self.list_index(id)];
            Ok(ListView { id: row.id, name: row.name, created: row.created, finished: row.finished, items: self.composition(id) })
        } else {
            Err(Error::NotFound)
        }
    }

    /// Every list, without its composition.
    pub open spec fn summaries(self) -> Seq<ListView> {
        summaries_of(self.lists)
    }

    /// The store after a list named `name` was created at `t`.
    pub open spec fn with_list(self, name: Seq<char>, t: Timestamp) -> StoreView {
        StoreView {
            lists: self.lists.push(ListRowView { id: self.next_list_id, name, created: t, finished: None }),
            next_list_id: (self.next_list_id + 1) as i64,
            ..self
        }
    }

    /// The store after list `id` was finished at `t`. Where there is no such
    /// list nothing changes.
    pub open spec fn with_finished(self, id: i64, t: Timestamp) -> StoreView {
        if self.has_list(id) {
            let k = self.list_index(id);
            StoreView { lists: self.lists.update(k, self.lists[k].finished_at(t)), ..self }
        } else {
            self
        }
    }

    /// The store after the composition of list `list_id` was replaced by
    /// `batch`: the list's former edges are gone, one edge per entry of
    /// `batch` follows the edges of the other lists.
    pub open spec fn with_composition(self, list_id: i64, batch: Seq<ListItemView>) -> StoreView {
        StoreView { edges: self.edges.filter(of_other_list(list_id)) + edges_for(list_id, batch), ..self }
    }
}

impl StoreView {
    /// In a store that keeps its constraints, the row that holds identity
    /// `id` is the one that `item_index` names.
    pub proof fn lemma_item_index(self, id: i64, k: int)
        requires
            self.wf(),
            0 <= k < self.items.len(),
            self.items[k].id == id,
        ensures
            self.has_item(id),
            self.item_index(id) == k,
    {
        let j = self.item_index(id);
        assert(self.items[j].id == self.items[k].id);
    }

    /// The same for the list table.
    pub proof fn lemma_list_index(self, id: i64, k: int)
        requires
            self.wf(),
            0 <= k < self.lists.len(),
            self.lists[k].id == id,
        ensures
            self.has_list(id),
            self.list_index(id) == k,
    {
        let j = self.list_index(id);
        assert(self.lists[j].id == self.lists[k].id);
    }

    /// Creating an item keeps the constraints.
    pub proof fn lemma_with_item_wf(self, name: Seq<char>)
        requires
            self.wf(),
            self.next_item_id < i64::MAX,
        ensures
            self.with_item(name).wf(),
    {
    }

    /// Creating a list keeps the constraints.
    pub proof fn lemma_with_list_wf(self, name: Seq<char>, t: Timestamp)
        requires
            self.wf(),
            self.next_list_id < i64::MAX,
        ensures
            self.with_list(name, t).wf(),
    {
    }

    /// Finishing a list keeps the constraints.
    pub proof fn lemma_with_finished_wf(self, id: i64, t: Timestamp)
        requires
            self.wf(),
        ensures
            self.with_finished(id, t).wf(),
    {
        let n = self.with_finished(id, t);
        if self.has_list(id) {
            assert forall|i: int| 0 <= i < n.lists.len() implies (#[trigger] n.lists[i]).id == self.lists[i].id by {}
        }
    }

    /// Replacing a composition by a batch without a repeated item keeps the
    /// constraints.
    pub proof fn lemma_with_composition_wf(self, list_id: i64, batch: Seq<ListItemView>)
        requires
            self.wf(),
            distinct_ids(batch),
        ensures
            self.with_composition(list_id, batch).wf(),
    {
        let kept = self.edges.filter(of_other_list(list_id));
        let added = edges_for(list_id, batch);
        let all = kept + added;
        lemma_filter_pair_unique(self.edges, of_other_list(list_id));
        assert forall|i: int, j: int| 0 <= i < j < all.len() implies !((#[trigger] all[i]).list_id == (#[trigger] all[j]).list_id
            && all[i].item_id == all[j].item_id) by {
            if i < kept.len() <= j {
                self.edges.lemma_filter_pred(of_other_list(list_id), i);
            }
        }
    }

    /// Deleting an item keeps the constraints, and the item is gone.
    pub proof fn lemma_without_item_wf(self, id: i64)
        requires
            self.wf(),
        ensures
            self.without_item(id).wf(),
            !self.without_item(id).has_item(id),
    {
        let t = self.without_item(id);
        if self.has_item(id) {
            let k = self.item_index(id);
            assert forall|i: int| 0 <= i < t.items.len() implies (#[trigger] t.items[i]) == self.items[if i < k {
                i
            } else {
                i + 1
            }] by {}
        }
    }
}

/// Keeping some of the edges keeps the uniqueness of the pairs.
pub proof fn lemma_filter_pair_unique(edges: Seq<Edge>, keep: spec_fn(Edge) -> bool)
    requires
        pair_unique(edges),
    ensures
        pair_unique(edges.filter(keep)),
    decreases edges.len(),
{
    reveal(Seq::filter);
    if edges.len() > 0 {
        let rest = edges.drop_last();
        let sub = rest.filter(keep);
        assert(pair_unique(rest));
        lemma_filter_pair_unique(rest, keep);
        let f = edges.filter(keep);
        assert forall|i: int, j: int| 0 <= i < j < f.len() implies !((#[trigger] f[i]).list_id == (#[trigger] f[j]).list_id
            && f[i].item_id == f[j].item_id) by {
            if j >= sub.len() {
                rest.lemma_filter_contains_rev(keep, sub[i]);
            }
        }
    }
}

/// Where every edge is kept, the edges are as they were.
pub proof fn lemma_filter_all(edges: Seq<Edge>, keep: spec_fn(Edge) -> bool)
    requires
        forall|i: int| 0 <= i < edges.len() ==> keep(#[trigger] edges[i]),
    ensures
        edges.filter(keep) == edges,
    decreases edges.len(),
{
    reveal(Seq::filter);
    if edges.len() > 0 {
        lemma_filter_all(edges.drop_last(), keep);
    }
}

/// Where no edge is kept, none is left.
pub proof fn lemma_filter_none(edges: Seq<Edge>, keep: spec_fn(Edge) -> bool)
    requires
        forall|i: int| 0 <= i < edges.len() ==> !keep(#[trigger] edges[i]),
    ensures
        edges.filter(keep) == Seq::<Edge>::empty(),
    decreases edges.len(),
{
    reveal(Seq::filter);
    if edges.len() > 0 {
        lemma_filter_none(edges.drop_last(), keep);
    }
}

} // verus!
