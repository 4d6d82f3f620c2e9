//! A catalog of reusable named items and lists that reference a subset of
//! those items with quantities.
//!
//! [`store::Store`] holds the three tables (items, lists, and the composition
//! edges between them) and offers the operations on them. Each operation's
//! contract is stated over the mathematical view of the store,
//! [`view::StoreView`]; the module [`laws`] proves what follows from those
//! contracts when operations are combined. [`transaction`] gives the
//! replacement of a composition as the statements that a database runs, and
//! proves that they replace the composition or change nothing.

pub mod clock;
pub mod laws;
pub mod models;
pub mod store;
pub mod transaction;
pub mod view;
