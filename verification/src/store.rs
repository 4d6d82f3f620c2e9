//! The store: the item catalog, the list table and the composition table,
//! with the operations on them.

use vstd::prelude::*;
use crate::clock::now;
use crate::models::{entry_views, Error, Item, ItemView, List, ListItem, ListView, NewItem, NewList, Timestamp};
use crate::view::{distinct_ids, edges_for, of_list, of_other_list, pair_unique, summaries_of, ListRowView, StoreView};

verus! {

/// One row of the composition table: list `list_id` holds `amount` of item
/// `item_id`. Neither identity has to exist in its table.
#[derive(Clone, Copy, Debug, PartialEq, Eq, Structural)]
pub struct Edge {
    pub list_id: i64,
    pub item_id: i64,
    pub amount: i64,
}

/// One row of the list table: a list without its composition.
#[derive(Clone, Debug, PartialEq, Eq)]
pub struct ListRow {
    pub id: i64,
    pub name: String,
    pub created: Timestamp,
    pub finished: Option<Timestamp>,
}

impl View for ListRow {
    type V = ListRowView;

    open spec fn view(&self) -> ListRowView {
        ListRowView { id: self.id, name: self.name@, created: self.created, finished: self.finished }
    }
}

/// The rows of the catalog as mathematical values.
pub open spec fn item_views(items: Seq<Item>) -> Seq<ItemView> {
    items.map_values(|it: Item| it@)
}

/// The rows of the list table as mathematical values.
pub open spec fn row_views(rows: Seq<ListRow>) -> Seq<ListRowView> {
    rows.map_values(|row: ListRow| row@)
}

/// Lists as mathematical values.
pub open spec fn list_views(lists: Seq<List>) -> Seq<ListView> {
    lists.map_values(|l: List| l@)
}

/// The item catalog, the list table and the composition table.
pub struct Store {
    items: Vec<Item>,
    lists: Vec<ListRow>,
    edges: Vec<Edge>,
    next_item_id: i64,
    next_list_id: i64,
}

impl View for Store {
    type V = StoreView;

    closed spec fn view(&self) -> StoreView {
        StoreView {
            items: item_views(self.items@),
            lists: row_views(self.lists@),
            edges: self.edges@,
            next_item_id: self.next_item_id,
            next_list_id: self.next_list_id,
        }
    }
}

impl Store {
    /// The tables keep their constraints.
    pub open spec fn wf(&self) -> bool {
        self@.wf()
    }

    /// An empty store.
    pub fn new() -> (s: Store)
        ensures
            s.wf(),
            s@ == StoreView::empty(),
    {
        let s = Store { items: Vec::new(), lists: Vec::new(), edges: Vec::new(), next_item_id: 1, next_list_id: 1 };
        proof {
            assert(s@.items =~= Seq::empty());
            assert(s@.lists =~= Seq::empty());
        }
        s
    }

    /// A store that holds the given rows, as they were read from where they
    /// are kept. Fails where the rows break a constraint of the tables:
    /// identities that are not positive or not in increasing order, two edges
    /// for one pair of list and item, or no identity left to assign.
    pub fn load(items: Vec<Item>, lists: Vec<ListRow>, edges: Vec<Edge>) -> (r: Result<Store, Error>)
        ensures
            match r {
                Ok(s) => {
                    &&& s.wf()
                    &&& StoreView::loadable(item_views(items@), row_views(lists@), edges@)
                    &&& s@ == StoreView::of_rows(item_views(items@), row_views(lists@), edges@)
                },
                Err(e) => {
                    &&& e == Error::Infrastructure
                    &&& !StoreView::loadable(item_views(items@), row_views(lists@), edges@)
                },
            },
    {
        let ghost iv = item_views(items@);
        let ghost lv = row_views(lists@);
        let mut last_item: i64 = 0;
        let mut k: usize = 0;
        while k < items.len()
            invariant
                k <= items.len(),
                iv == item_views(items@),
                lv == row_views(lists@),
                last_item == (if k == 0 {
                    0i64
                } else {
                    iv[k - 1].id
                }),
                forall|i: int| 0 <= i < k ==> 1 <= (#[trigger] iv[i]).id,
                forall|i: int, j: int| 0 <= i < j < k ==> (#[trigger] iv[i]).id < (#[trigger] iv[j]).id,
            decreases items.len() - k,
        {
            let id = items[k].id;
            if id <= last_item {
                proof {
                    let v = StoreView::of_rows(iv, lv, edges@);
                    assert(v.wf() ==> last_item < v.items[k as int].id);
                }
                return Err(Error::Infrastructure);
            }
            last_item = id;
            k += 1;
        }
        if last_item == i64::MAX {
            return Err(Error::Infrastructure);
        }
        let ghost item_rows_ok = {
            &&& last_item < i64::MAX
            &&& last_item == (if iv.len() == 0 {
                0i64
            } else {
                iv.last().id
            })
            &&& forall|i: int| 0 <= i < iv.len() ==> 1 <= (#[trigger] iv[i]).id
            &&& forall|i: int, j: int| 0 <= i < j < iv.len() ==> (#[trigger] iv[i]).id < (#[trigger] iv[j]).id
        };
        let mut last_list: i64 = 0;
        let mut k: usize = 0;
        while k < lists.len()
            invariant
                k <= lists.len(),
                item_rows_ok,
                iv == item_views(items@),
                lv == row_views(lists@),
                last_list == (if k == 0 {
                    0i64
                } else {
                    lv[k - 1].id
                }),
                forall|i: int| 0 <= i < k ==> 1 <= (#[trigger] lv[i]).id,
                forall|i: int, j: int| 0 <= i < j < k ==> (#[trigger] lv[i]).id < (#[trigger] lv[j]).id,
            decreases lists.len() - k,
        {
            let id = lists[k].id;
            if id <= last_list {
                proof {
                    let v = StoreView::of_rows(iv, lv, edges@);
                    assert(v.wf() ==> last_list < v.lists[k as int].id);
                }
                return Err(Error::Infrastructure);
            }
            last_list = id;
            k += 1;
        }
        if last_list == i64::MAX {
            return Err(Error::Infrastructure);
        }
        if !has_unique_pairs(&edges) {
            return Err(Error::Infrastructure);
        }
        let s = Store { items, lists, edges, next_item_id: last_item + 1, next_list_id: last_list + 1 };
        proof {
            let v = StoreView::of_rows(iv, lv, edges@);
            assert forall|i: int| 0 <= i < iv.len() implies (#[trigger] iv[i]).id < v.next_item_id by {}
            assert forall|i: int| 0 <= i < lv.len() implies (#[trigger] lv[i]).id < v.next_list_id by {}
        }
        Ok(s)
    }

    /// Where in the catalog the item with identity `id` stands.
    fn find_item(&self, id: i64) -> (r: Option<usize>)
        requires
            self.wf(),
        ensures
            match r {
                Some(k) => self@.has_item(id) && k == self@.item_index(id) && k < self.items.len(),
                None => !self@.has_item(id),
            },
    {
        let mut k: usize = 0;
        while k < self.items.len()
            invariant
                self.wf(),
                k <= self.items.len(),
                forall|i: int| 0 <= i < k ==> (#[trigger] self@.items[i]).id != id,
            decreases self.items.len() - k,
        {
            if self.items[k].id == id {
                proof {
                    self@.lemma_item_index(id, k as int);
                }
                return Some(k);
            }
            k += 1;
        }
        None
    }

    /// Creates an item named as `new` says and returns it with its identity.
    /// Fails only where no identity is left to assign.
    pub fn create_item(&mut self, new: NewItem) -> (r: Result<Item, Error>)
        requires
            old(self).wf(),
        ensures
            final(self).wf(),
            match r {
                Ok(item) => {
                    &&& old(self)@.next_item_id < i64::MAX
                    &&& item@ == (ItemView { id: old(self)@.next_item_id, name: new.name@ })
                    &&& final(self)@ == old(self)@.with_item(new.name@)
                },
                Err(e) => {
                    &&& old(self)@.next_item_id == i64::MAX
                    &&& e == Error::Infrastructure
                    &&& final(self)@ == old(self)@
                },
            },
    {
        if self.next_item_id == i64::MAX {
            return Err(Error::Infrastructure);
        }
        let id = self.next_item_id;
        self.items.push(Item { id, name: new.name.clone() });
        self.next_item_id = id + 1;
        proof {
            assert(self@.items =~= old(self)@.items.push(ItemView { id, name: new.name@ }));
            old(self)@.lemma_with_item_wf(new.name@);
        }
        Ok(Item { id, name: new.name })
    }

    /// Fetches the item with identity `id`.
    pub fn get_item(&self, id: i64) -> (r: Result<Item, Error>)
        requires
            self.wf(),
        ensures
            match r {
                Ok(item) => self@.get_item(id) == Ok::<ItemView, Error>(item@),
                Err(e) => self@.get_item(id) == Err::<ItemView, Error>(e),
            },
    {
        match self.find_item(id) {
            Some(k) => Ok(Item { id: self.items[k].id, name: self.items[k].name.clone() }),
            None => Err(Error::NotFound),
        }
    }

    /// Every item of the catalog, in the order of creation.
    pub fn list_items(&self) -> (r: Vec<Item>)
        ensures
            item_views(r@) == self@.items,
    {
        let mut out: Vec<Item> = Vec::new();
        let mut k: usize = 0;
        while k < self.items.len()
            invariant
                k <= self.items.len(),
                item_views(out@) == self@.items.take(k as int),
            decreases self.items.len() - k,
        {
            let item = Item { id: self.items[k].id, name: self.items[k].name.clone() };
            out.push(item);
            proof {
                assert(self@.items.take(k + 1) =~= self@.items.take(k as int).push(self@.items[k as int]));
            }
            k += 1;
        }
        out
    }

    /// Deletes the item with identity `id` from the catalog. Succeeds whether
    /// or not there is such an item, and leaves every edge that names the item
    /// in place.
    pub fn delete_item(&mut self, id: i64) -> (r: Result<(), Error>)
        requires
            old(self).wf(),
        ensures
            final(self).wf(),
            r is Ok,
            final(self)@ == old(self)@.without_item(id),
    {
        match self.find_item(id) {
            Some(k) => {
                self.items.remove(k);
                proof {
                    assert(self@.items =~= old(self)@.items.remove(k as int));
                    old(self)@.lemma_without_item_wf(id);
                }
            },
            None => {},
        }
        Ok(())
    }

    /// Where in the list table the list with identity `id` stands.
    fn find_list(&self, id: i64) -> (r: Option<usize>)
        requires
            self.wf(),
        ensures
            match r {
                Some(k) => self@.has_list(id) && k == self@.list_index(id) && k < self.lists.len(),
                None => !self@.has_list(id),
            },
    {
        let mut k: usize = 0;
        while k < self.lists.len()
            invariant
                self.wf(),
                k <= self.lists.len(),
                forall|i: int| 0 <= i < k ==> (#[trigger] self@.lists[i]).id != id,
            decreases self.lists.len() - k,
        {
            if self.lists[k].id == id {
                proof {
                    self@.lemma_list_index(id, k as int);
                }
                return Some(k);
            }
            k += 1;
        }
        None
    }

    /// Creates a list named as `new` says, created at `t`, not finished and
    /// with an empty composition, and returns it with its identity. Fails
    /// only where no identity is left to assign.
    pub fn create_list_at(&mut self, new: NewList, t: Timestamp) -> (r: Result<List, Error>)
        requires
            old(self).wf(),
        ensures
            final(self).wf(),
            match r {
                Ok(list) => {
                    &&& old(self)@.next_list_id < i64::MAX
                    &&& list@ == (ListView {
                        id: old(self)@.next_list_id,
                        name: new.name@,
                        created: t,
                        finished: None,
                        items: Seq::empty(),
                    })
                    &&& final(self)@ == old(self)@.with_list(new.name@, t)
                },
                Err(e) => {
                    &&& old(self)@.next_list_id == i64::MAX
                    &&& e == Error::Infrastructure
                    &&& final(self)@ == old(self)@
                },
            },
    {
        if self.next_list_id == i64::MAX {
            return Err(Error::Infrastructure);
        }
        let id = self.next_list_id;
        self.lists.push(ListRow { id, name: new.name.clone(), created: t, finished: None });
        self.next_list_id = id + 1;
        let list = List { id, name: new.name, created: t, finished: None, items: Vec::new() };
        proof {
            assert(self@.lists =~= old(self)@.lists.push(
                ListRowView { id, name: new.name@, created: t, finished: None },
            ));
            old(self)@.lemma_with_list_wf(new.name@, t);
            assert(list@.items =~= Seq::empty());
        }
        Ok(list)
    }

    /// Creates a list as [`Store::create_list_at`] does, at the time `reading`
    /// that the clock gave. Where the clock gave none, fails and leaves the
    /// store as it was.
    pub fn create_list_with_reading(&mut self, new: NewList, reading: Option<Timestamp>) -> (r: Result<List, Error>)
        requires
            old(self).wf(),
        ensures
            final(self).wf(),
            match r {
                Ok(list) => {
                    &&& reading is Some
                    &&& old(self)@.next_list_id < i64::MAX
                    &&& list@ == (ListView {
                        id: old(self)@.next_list_id,
                        name: new.name@,
                        created: reading->Some_0,
                        finished: None,
                        items: Seq::empty(),
                    })
                    &&& final(self)@ == old(self)@.with_list(new.name@, reading->Some_0)
                },
                Err(e) => {
                    &&& reading is None || old(self)@.next_list_id == i64::MAX
                    &&& e == Error::Infrastructure
                    &&& final(self)@ == old(self)@
                },
            },
    {
        match reading {
            Some(t) => self.create_list_at(new, t),
            None => Err(Error::Infrastructure),
        }
    }

    /// Creates a list at the time that the clock shows: the caller cannot
    /// choose the time of creation. Fails, and leaves the store as it was,
    /// where no identity is left to assign or the clock shows no time that
    /// can be held (see [`Store::create_list_with_reading`]).
    pub fn create_list(&mut self, new: NewList) -> (r: Result<List, Error>)
        requires
            old(self).wf(),
        ensures
            final(self).wf(),
            match r {
                Ok(list) => {
                    &&& old(self)@.next_list_id < i64::MAX
                    &&& list@ == (ListView {
                        id: old(self)@.next_list_id,
                        name: new.name@,
                        created: list.created,
                        finished: None,
                        items: Seq::empty(),
                    })
                    &&& final(self)@ == old(self)@.with_list(new.name@, list.created)
                },
                Err(e) => {
                    &&& e == Error::Infrastructure
                    &&& final(self)@ == old(self)@
                },
            },
    {
        let reading = now();
        self.create_list_with_reading(new, reading)
    }

    /// Every list in the order of creation, each without its composition.
    pub fn list_lists(&self) -> (r: Vec<List>)
        ensures
            list_views(r@) == self@.summaries(),
    {
        let mut out: Vec<List> = Vec::new();
        let mut k: usize = 0;
        while k < self.lists.len()
            invariant
                k <= self.lists.len(),
                list_views(out@) == summaries_of(self@.lists.take(k as int)),
            decreases self.lists.len() - k,
        {
            let row = &self.lists[k];
            let list = List { id: row.id, name: row.name.clone(), created: row.created, finished: row.finished, items: Vec::new() };
            proof {
                assert(list@.items =~= Seq::empty());
            }
            out.push(list);
            proof {
                assert(summaries_of(self@.lists.take(k + 1)) =~= summaries_of(self@.lists.take(k as int)).push(
                    self@.lists[k as int].summary(),
                ));
            }
            k += 1;
        }
        out
    }

    /// Fetches list `id` with its composition: one entry per edge of the list,
    /// in the order of the batch that set them, each with the item's catalog
    /// name, or with an empty name where the catalog no longer has the item.
    pub fn get_list(&self, id: i64) -> (r: Result<List, Error>)
        requires
            self.wf(),
        ensures
            match r {
                Ok(list) => self@.get_list(id) == Ok::<ListView, Error>(list@),
                Err(e) => self@.get_list(id) == Err::<ListView, Error>(e),
            },
    {
        match self.find_list(id) {
            None => Err(Error::NotFound),
            Some(k) => {
                let mut items: Vec<ListItem> = Vec::new();
                let mut i: usize = 0;
                while i < self.edges.len()
                    invariant
                        self.wf(),
                        i <= self.edges.len(),
                        entry_views(items@) == self@.entries(self@.edges.take(i as int).filter(of_list(id))),
                    decreases self.edges.len() - i,
                {
                    let e = self.edges[i];
                    let ghost seen = self@.edges.take(i as int);
                    proof {
                        reveal(Seq::filter);
                        assert(self@.edges.take(i + 1).drop_last() =~= seen);
                    }
                    if e.list_id == id {
                        let name = match self.find_item(e.item_id) {
                            Some(m) => self.items[m].name.clone(),
                            None => String::new(),
                        };
                        let entry = ListItem { id: e.item_id, name, amount: e.amount };
                        items.push(entry);
                        proof {
                            assert(self@.entries(seen.filter(of_list(id)).push(e)) =~= self@.entries(
                                seen.filter(of_list(id)),
                            ).push(self@.entry_of(e)));
                        }
                    }
                    i += 1;
                }
                let row = &self.lists[k];
                let list = List { id: row.id, name: row.name.clone(), created: row.created, finished: row.finished, items };
                proof {
                    assert(self@.edges.take(i as int) =~= self@.edges);
                }
                Ok(list)
            },
        }
    }

    /// Marks list `id` as finished at `t`, whether or not it was finished
    /// before. Succeeds, and changes nothing, where there is no such list.
    pub fn finish_list_at(&mut self, id: i64, t: Timestamp) -> (r: Result<(), Error>)
        requires
            old(self).wf(),
        ensures
            final(self).wf(),
            r is Ok,
            final(self)@ == old(self)@.with_finished(id, t),
    {
        match self.find_list(id) {
            Some(k) => {
                self.lists[k].finished = Some(t);
                proof {
                    assert(self@.lists =~= old(self)@.lists.update(k as int, old(self)@.lists[k as int].finished_at(t)));
                    old(self)@.lemma_with_finished_wf(id, t);
                }
            },
            None => {},
        }
        Ok(())
    }

    /// Marks list `id` as finished as [`Store::finish_list_at`] does, at the
    /// time `reading` that the clock gave. Where the clock gave none, fails
    /// and leaves the store as it was.
    pub fn finish_list_with_reading(&mut self, id: i64, reading: Option<Timestamp>) -> (r: Result<(), Error>)
        requires
            old(self).wf(),
        ensures
            final(self).wf(),
            match reading {
                Some(t) => r is Ok && final(self)@ == old(self)@.with_finished(id, t),
                None => r == Err::<(), Error>(Error::Infrastructure) && final(self)@ == old(self)@,
            },
    {
        match reading {
            Some(t) => self.finish_list_at(id, t),
            None => Err(Error::Infrastructure),
        }
    }

    /// Marks list `id` as finished at the time that the clock shows. Fails,
    /// and leaves the store as it was, only where the clock shows no time
    /// that can be held (see [`Store::finish_list_with_reading`]).
    pub fn finish_list(&mut self, id: i64) -> (r: Result<(), Error>)
        requires
            old(self).wf(),
        ensures
            final(self).wf(),
            match r {
                Ok(_) => exists|t: Timestamp| final(self)@ == #[trigger] old(self)@.with_finished(id, t),
                Err(e) => e == Error::Infrastructure && final(self)@ == old(self)@,
            },
    {
        let reading = now();
        self.finish_list_with_reading(id, reading)
    }

    /// Replaces the composition of list `list_id` by `batch`, all or nothing.
    ///
    /// Where no two entries of `batch` name the same item, the list's former
    /// edges are deleted and one edge is inserted per entry, with the entry's
    /// item and amount as given; neither the list nor the items have to exist.
    /// Where two entries name the same item, the second insert would break the
    /// uniqueness of the pair of list and item: the operation fails and the
    /// store is as it was.
    pub fn replace_list_items(&mut self, list_id: i64, batch: Vec<ListItem>) -> (r: Result<(), Error>)
        requires
            old(self).wf(),
        ensures
            final(self).wf(),
            match r {
                Ok(_) => {
                    &&& distinct_ids(entry_views(batch@))
                    &&& final(self)@ == old(self)@.with_composition(list_id, entry_views(batch@))
                },
                Err(e) => {
                    &&& !distinct_ids(entry_views(batch@))
                    &&& e == Error::Infrastructure
                    &&& final(self)@ == old(self)@
                },
            },
    {
        if !has_distinct_ids(&batch) {
            return Err(Error::Infrastructure);
        }
        let mut edges: Vec<Edge> = Vec::new();
        let mut i: usize = 0;
        while i < self.edges.len()
            invariant
                i <= self.edges.len(),
                edges@ == self.edges@.take(i as int).filter(of_other_list(list_id)),
            decreases self.edges.len() - i,
        {
            let e = self.edges[i];
            proof {
                reveal(Seq::filter);
                assert(self.edges@.take(i + 1).drop_last() =~= self.edges@.take(i as int));
            }
            if e.list_id != list_id {
                edges.push(e);
            }
            i += 1;
        }
        proof {
            assert(self.edges@.take(i as int) =~= self.edges@);
        }
        let ghost kept = edges@;
        let mut j: usize = 0;
        while j < batch.len()
            invariant
                j <= batch.len(),
                edges@ == kept + edges_for(list_id, entry_views(batch@).take(j as int)),
            decreases batch.len() - j,
        {
            let e = Edge { list_id, item_id: batch[j].id, amount: batch[j].amount };
            edges.push(e);
            j += 1;
        }
        proof {
            assert(entry_views(batch@).take(j as int) =~= entry_views(batch@));
            old(self)@.lemma_with_composition_wf(list_id, entry_views(batch@));
        }
        self.edges = edges;
        Ok(())
    }
}

/// Decides whether at most one of `edges` stands for each pair of list and
/// item.
pub fn has_unique_pairs(edges: &Vec<Edge>) -> (b: bool)
    ensures
        b == pair_unique(edges@),
{
    let mut j: usize = 0;
    while j < edges.len()
        invariant
            j <= edges.len(),
            forall|a: int, b: int| 0 <= a < b < j ==> !((#[trigger] edges@[a]).list_id == (#[trigger] edges@[b]).list_id
                && edges@[a].item_id == edges@[b].item_id),
        decreases edges.len() - j,
    {
        let mut i: usize = 0;
        while i < j
            invariant
                i <= j < edges.len(),
                forall|a: int| 0 <= a < i ==> !((#[trigger] edges@[a]).list_id == edges@[j as int].list_id
                    && edges@[a].item_id == edges@[j as int].item_id),
            decreases j - i,
        {
            if edges[i].list_id == edges[j].list_id && edges[i].item_id == edges[j].item_id {
                return false;
            }
            i += 1;
        }
        j += 1;
    }
    true
}

/// Decides whether no two entries of `batch` name the same item.
pub fn has_distinct_ids(batch: &Vec<ListItem>) -> (b: bool)
    ensures
        b == distinct_ids(entry_views(batch@)),
{
    let ghost entries = entry_views(batch@);
    let mut j: usize = 0;
    while j < batch.len()
        invariant
            j <= batch.len(),
            entries == entry_views(batch@),
            forall|a: int, b: int| 0 <= a < b < j ==> (#[trigger] entries[a]).id != (#[trigger] entries[b]).id,
        decreases batch.len() - j,
    {
        let mut i: usize = 0;
        while i < j
            invariant
                i <= j < batch.len(),
                entries == entry_views(batch@),
                forall|a: int| 0 <= a < i ==> (#[trigger] entries[a]).id != entries[j as int].id,
            decreases j - i,
        {
            if batch[i].id == batch[j].id {
                proof {
                    assert(entries[i as int].id == entries[j as int].id);
                }
                return false;
            }
            i += 1;
        }
        j += 1;
    }
    true
}

} // verus!
