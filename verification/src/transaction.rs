//! The replacement of a composition as the statements of one transaction on
//! the composition table: delete the list's edges, then insert the edges of
//! the batch one by one. Run in order, all or nothing, they do what
//! [`crate::store::Store::replace_list_items`] does.

use vstd::prelude::*;
use crate::models::{entry_views, ListItem, ListItemView};
use crate::store::Edge;
use crate::view::{distinct_ids, edge_of, edges_for, of_other_list, StoreView};

verus! {

/// One statement of the transaction.
#[derive(Clone, Copy, Debug, PartialEq, Eq, Structural)]
pub enum Statement {
    /// Delete every edge of list `list_id`.
    DeleteEdges { list_id: i64 },
    /// Insert `edge`. The table refuses it where it holds an edge for the
    /// same pair of list and item.
    InsertEdge { edge: Edge },
}

/// The table holds an edge for the pair of list and item of `e`.
pub open spec fn has_pair(edges: Seq<Edge>, e: Edge) -> bool {
    exists|i: int| 0 <= i < edges.len() && (#[trigger] edges[i]).list_id == e.list_id && edges[i].item_id == e.item_id
}

/// What `statement` makes of the table; `None` where the table refuses it.
pub open spec fn after(statement: Statement, edges: Seq<Edge>) -> Option<Seq<Edge>> {
    match statement {
        Statement::DeleteEdges { list_id } => Some(edges.filter(of_other_list(list_id))),
        Statement::InsertEdge { edge } => if has_pair(edges, edge) {
            None
        } else {
            Some(edges.push(edge))
        },
    }
}

/// What `statements` make of the table when they are run in order; `None`
/// where the table refuses one of them.
pub open spec fn after_all(statements: Seq<Statement>, edges: Seq<Edge>) -> Option<Seq<Edge>>
    decreases statements.len(),
{
    if statements.len() == 0 {
        Some(edges)
    } else {
        match after_all(statements.drop_last(), edges) {
            Some(so_far) => after(statements.last(), so_far),
            None => None,
        }
    }
}

/// The statement that inserts each entry of `batch` for list `list_id`.
pub open spec fn inserts(list_id: i64, batch: Seq<ListItemView>) -> Seq<Statement> {
    batch.map_values(|entry: ListItemView| Statement::InsertEdge { edge: edge_of(list_id, entry) })
}

/// The statements that replace the composition of list `list_id` by `batch`.
pub open spec fn plan(list_id: i64, batch: Seq<ListItemView>) -> Seq<Statement> {
    seq![Statement::DeleteEdges { list_id }] + inserts(list_id, batch)
}

/// The statements that replace the composition of list `list_id` by `batch`,
/// in the order in which the transaction runs them.
pub fn replace_statements(list_id: i64, batch: &Vec<ListItem>) -> (r: Vec<Statement>)
    ensures
        r@ == plan(list_id, entry_views(batch@)),
{
    let mut out: Vec<Statement> = Vec::new();
    out.push(Statement::DeleteEdges { list_id });
    let mut j: usize = 0;
    while j < batch.len()
        invariant
            j <= batch.len(),
            out@ == plan(list_id, entry_views(batch@).take(j as int)),
        decreases batch.len() - j,
    {
        out.push(Statement::InsertEdge { edge: Edge { list_id, item_id: batch[j].id, amount: batch[j].amount } });
        j += 1;
    }
    out
}

/// The transaction is all or nothing, and where it goes through, the table is
/// what replacing the composition makes of it: every statement is accepted
/// exactly where no two entries of the batch name the same item, and then the
/// list's former edges are gone and the edges of the batch follow the edges
/// of the other lists.
pub proof fn law_transaction_replaces(s: StoreView, list_id: i64, batch: Seq<ListItemView>)
    ensures
        after_all(plan(list_id, batch), s.edges) == (if distinct_ids(batch) {
            Some(s.with_composition(list_id, batch).edges)
        } else {
            None
        }),
    decreases batch.len(),
{
    let kept = s.edges.filter(of_other_list(list_id));
    let all = plan(list_id, batch);
    if batch.len() == 0 {
        assert(after_all(all.drop_last(), s.edges) == Some(s.edges));
    } else {
        let rest = batch.drop_last();
        let e = edge_of(list_id, batch.last());
        law_transaction_replaces(s, list_id, rest);
        assert(all.drop_last() =~= plan(list_id, rest));
        if distinct_ids(rest) {
            let so_far = kept + edges_for(list_id, rest);
            if has_pair(so_far, e) {
                let i = choose|i: int| 0 <= i < so_far.len() && (#[trigger] so_far[i]).list_id == e.list_id && so_far[i].item_id == e.item_id;
                if i < kept.len() {
                    s.edges.lemma_filter_pred(of_other_list(list_id), i);
                }
            } else {
                assert forall|a: int, b: int| 0 <= a < b < batch.len() implies (#[trigger] batch[a]).id != (#[trigger] batch[b]).id by {
                    if b == batch.len() - 1 {
                        assert(so_far[kept.len() + a] == edge_of(list_id, batch[a]));
                    } else {
                        assert(rest[a] == batch[a] && rest[b] == batch[b]);
                    }
                }
            }
        }
    }
}

} // verus!
