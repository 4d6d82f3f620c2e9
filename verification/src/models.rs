//! The values that go in and out of the store.

use vstd::prelude::*;

verus! {

/// A point in time: whole seconds since the Unix epoch (UTC) and the
/// nanoseconds within that second.
#[derive(Clone, Copy, Debug, PartialEq, Eq, Structural)]
pub struct Timestamp {
    pub secs: i64,
    pub nanos: u32,
}

impl Timestamp {
    /// `self` lies strictly before `other`.
    pub open spec fn is_before(self, other: Timestamp) -> bool {
        self.secs < other.secs || (self.secs == other.secs && self.nanos < other.nanos)
    }

    /// Decides whether `self` lies strictly before `other`.
    pub fn before(&self, other: &Timestamp) -> (b: bool)
        ensures
            b == self.is_before(*other),
    {
        self.secs < other.secs || (self.secs == other.secs && self.nanos < other.nanos)
    }
}

/// Why an operation on the store did not succeed.
#[derive(Clone, Copy, Debug, PartialEq, Eq, Structural)]
pub enum Error {
    /// The requested identity is not in the store.
    NotFound,
    /// The store could not carry the operation out: a uniqueness constraint
    /// was violated, no identity could be assigned, or the clock showed no
    /// time that can be held.
    Infrastructure,
}

impl Error {
    /// A short description for the caller.
    pub fn message(&self) -> (s: String)
        ensures
            s@ == (match *self {
                Error::NotFound => "not found"@,
                Error::Infrastructure => "storage error"@,
            }),
    {
        match self {
            Error::NotFound => "not found".to_owned(),
            Error::Infrastructure => "storage error".to_owned(),
        }
    }
}

/// The request to create an item.
#[derive(Clone, Debug, PartialEq, Eq)]
pub struct NewItem {
    pub name: String,
}

/// A catalog item.
#[derive(Clone, Debug, PartialEq, Eq)]
pub struct Item {
    pub id: i64,
    pub name: String,
}

/// What an [`Item`] is: its identity and its name as a sequence of characters.
pub struct ItemView {
    pub id: i64,
    pub name: Seq<char>,
}

impl View for Item {
    type V = ItemView;

    open spec fn view(&self) -> ItemView {
        ItemView { id: self.id, name: self.name@ }
    }
}

/// The request to create a list.
#[derive(Clone, Debug, PartialEq, Eq)]
pub struct NewList {
    pub name: String,
}

/// One member of a list's composition: the item's identity, its catalog
/// name (empty in a request, and for an item that is no longer in the
/// catalog), and the amount.
#[derive(Clone, Debug, PartialEq, Eq)]
pub struct ListItem {
    pub id: i64,
    pub name: String,
    pub amount: i64,
}

/// What a [`ListItem`] is.
pub struct ListItemView {
    pub id: i64,
    pub name: Seq<char>,
    pub amount: i64,
}

impl View for ListItem {
    type V = ListItemView;

    open spec fn view(&self) -> ListItemView {
        ListItemView { id: self.id, name: self.name@, amount: self.amount }
    }
}

/// The entries of a composition or of a batch as mathematical values.
pub open spec fn entry_views(entries: Seq<ListItem>) -> Seq<ListItemView> {
    entries.map_values(|it: ListItem| it@)
}

/// A list: its metadata and, where it was fetched alone, its composition.
#[derive(Clone, Debug, PartialEq, Eq)]
pub struct List {
    pub id: i64,
    pub name: String,
    pub created: Timestamp,
    pub finished: Option<Timestamp>,
    pub items: Vec<ListItem>,
}

/// What a [`List`] is.
pub struct ListView {
    pub id: i64,
    pub name: Seq<char>,
    pub created: Timestamp,
    pub finished: Option<Timestamp>,
    pub items: Seq<ListItemView>,
}

impl View for List {
    type V = ListView;

    open spec fn view(&self) -> ListView {
        ListView {
            id: self.id,
            name: self.name@,
            created: self.created,
            finished: self.finished,
            items: entry_views(self.items@),
        }
    }
}

} // verus!
