use taler::models::{Error, Item, List, ListItem, NewItem, NewList, Timestamp};
use taler::store::{has_distinct_ids, has_unique_pairs, Edge, ListRow, Store};
use taler::transaction::{replace_statements, Statement};

fn new_item(name: &str) -> NewItem {
    NewItem { name: name.to_string() }
}

fn new_list(name: &str) -> NewList {
    NewList { name: name.to_string() }
}

fn entry(id: i64, amount: i64) -> ListItem {
    ListItem { id, name: String::new(), amount }
}

fn shown(id: i64, name: &str, amount: i64) -> ListItem {
    ListItem { id, name: name.to_string(), amount }
}

fn at(secs: i64, nanos: u32) -> Timestamp {
    Timestamp { secs, nanos }
}

#[test]
fn empty_store_has_nothing() {
    let store = Store::new();
    assert_eq!(store.list_items(), Vec::<Item>::new());
    assert_eq!(store.list_lists(), Vec::<List>::new());
    assert_eq!(store.get_item(1), Err(Error::NotFound));
    assert_eq!(store.get_list(1), Err(Error::NotFound));
}

#[test]
fn created_item_is_fetched_with_its_name() {
    let mut store = Store::new();
    let flour = store.create_item(new_item("flour")).unwrap();
    let sugar = store.create_item(new_item("sugar")).unwrap();
    assert_eq!(flour, Item { id: 1, name: "flour".to_string() });
    assert_eq!(sugar, Item { id: 2, name: "sugar".to_string() });
    assert_eq!(store.get_item(flour.id), Ok(flour));
    assert_eq!(store.get_item(sugar.id), Ok(sugar));
    assert_eq!(store.get_item(3), Err(Error::NotFound));
}

#[test]
fn items_are_listed_in_order_of_creation() {
    let mut store = Store::new();
    store.create_item(new_item("flour")).unwrap();
    store.create_item(new_item("sugar")).unwrap();
    store.create_item(new_item("salt")).unwrap();
    store.delete_item(2).unwrap();
    assert_eq!(
        store.list_items(),
        vec![Item { id: 1, name: "flour".to_string() }, Item { id: 3, name: "salt".to_string() }]
    );
}

#[test]
fn deleting_a_missing_item_succeeds() {
    let mut store = Store::new();
    store.create_item(new_item("flour")).unwrap();
    assert_eq!(store.delete_item(42), Ok(()));
    assert_eq!(store.delete_item(-7), Ok(()));
    assert_eq!(store.list_items(), vec![Item { id: 1, name: "flour".to_string() }]);
    assert_eq!(store.delete_item(1), Ok(()));
    assert_eq!(store.delete_item(1), Ok(()));
    assert_eq!(store.list_items(), Vec::<Item>::new());
    assert_eq!(store.get_item(1), Err(Error::NotFound));
}

#[test]
fn identities_are_not_reused() {
    let mut store = Store::new();
    store.create_item(new_item("flour")).unwrap();
    store.delete_item(1).unwrap();
    let sugar = store.create_item(new_item("sugar")).unwrap();
    assert_eq!(sugar.id, 2);
    assert_eq!(store.get_item(1), Err(Error::NotFound));
}

#[test]
fn created_list_is_unfinished_and_empty() {
    let mut store = Store::new();
    let list = store.create_list_at(new_list("groceries"), at(1_700_000_000, 5)).unwrap();
    assert_eq!(
        list,
        List { id: 1, name: "groceries".to_string(), created: at(1_700_000_000, 5), finished: None, items: vec![] }
    );
    assert_eq!(store.get_list(1), Ok(list));
    assert_eq!(store.get_list(2), Err(Error::NotFound));
}

fn seconds_since_epoch() -> Option<i64> {
    std::time::UNIX_EPOCH.elapsed().ok().map(|gone| gone.as_secs() as i64)
}

fn cannot_be_held(seconds: Option<i64>) -> bool {
    seconds.map_or(true, |secs| chrono::DateTime::from_timestamp(secs, 0).is_none())
}

fn lies_between(before: Option<i64>, t: Timestamp, after: Option<i64>) -> bool {
    match (before, after) {
        (Some(b), Some(a)) if b <= a => b <= t.secs && t.secs <= a && t.nanos < 1_000_000_000,
        _ => true,
    }
}

#[test]
fn created_list_is_stamped_by_the_clock() {
    let mut store = Store::new();
    let before = seconds_since_epoch();
    let outcome = store.create_list(new_list("groceries"));
    let after = seconds_since_epoch();
    match outcome {
        Ok(list) => {
            assert_eq!(list.id, 1);
            assert_eq!(list.name, "groceries");
            assert_eq!(list.finished, None);
            assert!(list.items.is_empty());
            assert!(lies_between(before, list.created, after));
            assert_eq!(store.get_list(1), Ok(list));
        }
        Err(e) => {
            assert_eq!(e, Error::Infrastructure);
            assert!(cannot_be_held(before));
            assert_eq!(store.list_lists(), Vec::<List>::new());
        }
    }
}

#[test]
fn no_list_is_created_without_a_reading() {
    let mut store = Store::new();
    assert_eq!(store.create_list_with_reading(new_list("groceries"), None), Err(Error::Infrastructure));
    assert_eq!(store.list_lists(), Vec::<List>::new());
    let list = store.create_list_with_reading(new_list("groceries"), Some(at(10, 3))).unwrap();
    assert_eq!(
        list,
        List { id: 1, name: "groceries".to_string(), created: at(10, 3), finished: None, items: vec![] }
    );
    assert_eq!(store.get_list(1), Ok(list));
}

#[test]
fn no_list_is_finished_without_a_reading() {
    let mut store = Store::new();
    store.create_list_at(new_list("groceries"), at(10, 0)).unwrap();
    assert_eq!(store.finish_list_with_reading(1, None), Err(Error::Infrastructure));
    assert_eq!(store.get_list(1).unwrap().finished, None);
    assert_eq!(store.finish_list_with_reading(1, Some(at(20, 0))), Ok(()));
    assert_eq!(store.finish_list_with_reading(1, None), Err(Error::Infrastructure));
    assert_eq!(store.get_list(1).unwrap().finished, Some(at(20, 0)));
    assert_eq!(store.finish_list_with_reading(9, None), Err(Error::Infrastructure));
    assert_eq!(store.finish_list_with_reading(9, Some(at(21, 0))), Ok(()));
}

#[test]
fn item_and_list_identities_are_independent() {
    let mut store = Store::new();
    store.create_item(new_item("flour")).unwrap();
    store.create_item(new_item("sugar")).unwrap();
    let list = store.create_list_at(new_list("groceries"), at(10, 0)).unwrap();
    assert_eq!(list.id, 1);
}

#[test]
fn replaced_composition_is_fetched() {
    let mut store = Store::new();
    store.create_item(new_item("flour")).unwrap();
    store.create_item(new_item("sugar")).unwrap();
    store.create_item(new_item("salt")).unwrap();
    store.create_list_at(new_list("groceries"), at(10, 0)).unwrap();
    assert_eq!(store.replace_list_items(1, vec![entry(1, 2), entry(2, 5)]), Ok(()));
    assert_eq!(store.get_list(1).unwrap().items, vec![shown(1, "flour", 2), shown(2, "sugar", 5)]);
    assert_eq!(store.replace_list_items(1, vec![entry(3, 1), entry(1, 7)]), Ok(()));
    assert_eq!(store.get_list(1).unwrap().items, vec![shown(3, "salt", 1), shown(1, "flour", 7)]);
    assert_eq!(store.replace_list_items(1, vec![]), Ok(()));
    assert_eq!(store.get_list(1).unwrap().items, Vec::<ListItem>::new());
}

#[test]
fn replace_keeps_amounts_as_given() {
    let mut store = Store::new();
    store.create_item(new_item("flour")).unwrap();
    store.create_item(new_item("sugar")).unwrap();
    store.create_list_at(new_list("groceries"), at(10, 0)).unwrap();
    assert_eq!(store.replace_list_items(1, vec![entry(1, 0), entry(2, -3)]), Ok(()));
    assert_eq!(store.get_list(1).unwrap().items, vec![shown(1, "flour", 0), shown(2, "sugar", -3)]);
}

#[test]
fn replace_ignores_the_names_of_the_batch() {
    let mut store = Store::new();
    store.create_item(new_item("flour")).unwrap();
    store.create_list_at(new_list("groceries"), at(10, 0)).unwrap();
    assert_eq!(store.replace_list_items(1, vec![shown(1, "not flour", 4)]), Ok(()));
    assert_eq!(store.get_list(1).unwrap().items, vec![shown(1, "flour", 4)]);
}

#[test]
fn replace_with_a_repeated_item_changes_nothing() {
    let mut store = Store::new();
    store.create_item(new_item("flour")).unwrap();
    store.create_item(new_item("sugar")).unwrap();
    store.create_list_at(new_list("groceries"), at(10, 0)).unwrap();
    store.replace_list_items(1, vec![entry(1, 2)]).unwrap();
    assert_eq!(
        store.replace_list_items(1, vec![entry(2, 1), entry(1, 3), entry(2, 9)]),
        Err(Error::Infrastructure)
    );
    assert_eq!(store.get_list(1).unwrap().items, vec![shown(1, "flour", 2)]);
}

#[test]
fn replace_leaves_other_lists() {
    let mut store = Store::new();
    store.create_item(new_item("flour")).unwrap();
    store.create_item(new_item("sugar")).unwrap();
    store.create_list_at(new_list("groceries"), at(10, 0)).unwrap();
    store.create_list_at(new_list("party"), at(11, 0)).unwrap();
    store.replace_list_items(1, vec![entry(1, 2)]).unwrap();
    store.replace_list_items(2, vec![entry(1, 8), entry(2, 3)]).unwrap();
    store.replace_list_items(1, vec![entry(2, 4)]).unwrap();
    assert_eq!(store.get_list(1).unwrap().items, vec![shown(2, "sugar", 4)]);
    assert_eq!(store.get_list(2).unwrap().items, vec![shown(1, "flour", 8), shown(2, "sugar", 3)]);
}

#[test]
fn replace_accepts_unknown_list_and_items() {
    let mut store = Store::new();
    assert_eq!(store.replace_list_items(5, vec![entry(9, 1)]), Ok(()));
    assert_eq!(store.get_list(5), Err(Error::NotFound));
    store.create_list_at(new_list("groceries"), at(10, 0)).unwrap();
    assert_eq!(store.replace_list_items(1, vec![entry(9, 1)]), Ok(()));
    assert_eq!(store.get_list(1).unwrap().items, vec![shown(9, "", 1)]);
}

#[test]
fn deleted_item_stays_in_compositions() {
    let mut store = Store::new();
    store.create_item(new_item("flour")).unwrap();
    store.create_item(new_item("sugar")).unwrap();
    store.create_list_at(new_list("groceries"), at(10, 0)).unwrap();
    store.replace_list_items(1, vec![entry(1, 2), entry(2, 5)]).unwrap();
    assert_eq!(store.delete_item(1), Ok(()));
    assert_eq!(store.get_list(1).unwrap().items, vec![shown(1, "", 2), shown(2, "sugar", 5)]);
}

#[test]
fn lists_are_listed_without_composition() {
    let mut store = Store::new();
    store.create_item(new_item("flour")).unwrap();
    store.create_list_at(new_list("groceries"), at(10, 0)).unwrap();
    store.create_list_at(new_list("party"), at(11, 1)).unwrap();
    store.replace_list_items(1, vec![entry(1, 2)]).unwrap();
    store.finish_list_at(2, at(12, 0)).unwrap();
    assert_eq!(
        store.list_lists(),
        vec![
            List { id: 1, name: "groceries".to_string(), created: at(10, 0), finished: None, items: vec![] },
            List { id: 2, name: "party".to_string(), created: at(11, 1), finished: Some(at(12, 0)), items: vec![] },
        ]
    );
}

#[test]
fn finishing_twice_overwrites_the_time() {
    let mut store = Store::new();
    store.create_list_at(new_list("groceries"), at(10, 0)).unwrap();
    assert_eq!(store.finish_list_at(1, at(20, 0)), Ok(()));
    assert_eq!(store.get_list(1).unwrap().finished, Some(at(20, 0)));
    assert_eq!(store.finish_list_at(1, at(20, 1)), Ok(()));
    let list = store.get_list(1).unwrap();
    assert_eq!(list.finished, Some(at(20, 1)));
    assert_eq!(list.created, at(10, 0));
    assert_eq!(list.name, "groceries");
}

#[test]
fn finishing_by_the_clock_sets_a_time() {
    let mut store = Store::new();
    store.create_list_at(new_list("groceries"), at(10, 0)).unwrap();
    for _ in 0..2 {
        let before = seconds_since_epoch();
        let outcome = store.finish_list(1);
        let after = seconds_since_epoch();
        let list = store.get_list(1).unwrap();
        assert_eq!(list.created, at(10, 0));
        match outcome {
            Ok(()) => assert!(lies_between(before, list.finished.unwrap(), after)),
            Err(e) => {
                assert_eq!(e, Error::Infrastructure);
                assert!(cannot_be_held(before));
                assert_eq!(list.finished, None);
            }
        }
    }
}

#[test]
fn finishing_a_missing_list_succeeds() {
    let mut store = Store::new();
    store.create_list_at(new_list("groceries"), at(10, 0)).unwrap();
    assert_eq!(store.finish_list_at(7, at(20, 0)), Ok(()));
    assert_eq!(store.finish_list_with_reading(8, Some(at(21, 0))), Ok(()));
    assert_eq!(store.get_list(1).unwrap().finished, None);
    assert_eq!(store.get_list(7), Err(Error::NotFound));
}

#[test]
fn composition_can_change_after_finishing() {
    let mut store = Store::new();
    store.create_item(new_item("flour")).unwrap();
    store.create_list_at(new_list("groceries"), at(10, 0)).unwrap();
    store.finish_list_at(1, at(20, 0)).unwrap();
    assert_eq!(store.replace_list_items(1, vec![entry(1, 3)]), Ok(()));
    let list = store.get_list(1).unwrap();
    assert_eq!(list.finished, Some(at(20, 0)));
    assert_eq!(list.items, vec![shown(1, "flour", 3)]);
}

#[test]
fn groceries_scenario() {
    let mut store = Store::new();
    let flour = store.create_item(new_item("flour")).unwrap();
    assert_eq!(flour.id, 1);
    let list = store.create_list(new_list("groceries")).unwrap();
    assert_eq!(list.id, 1);
    assert_eq!(list.finished, None);
    assert_eq!(store.replace_list_items(1, vec![entry(1, 2)]), Ok(()));
    let fetched = store.get_list(1).unwrap();
    assert_eq!(
        fetched,
        List {
            id: 1,
            name: "groceries".to_string(),
            created: list.created,
            finished: None,
            items: vec![shown(1, "flour", 2)],
        }
    );
    assert_eq!(store.finish_list(1), Ok(()));
    assert!(store.get_list(1).unwrap().finished.is_some());
}

#[test]
fn distinct_ids_are_recognised() {
    assert!(has_distinct_ids(&vec![]));
    assert!(has_distinct_ids(&vec![entry(1, 1)]));
    assert!(has_distinct_ids(&vec![entry(1, 1), entry(2, 1), entry(3, 1)]));
    assert!(!has_distinct_ids(&vec![entry(1, 1), entry(2, 1), entry(1, 5)]));
    assert!(!has_distinct_ids(&vec![entry(4, 1), entry(4, 1)]));
}

#[test]
fn timestamps_are_ordered_by_seconds_then_nanoseconds() {
    assert!(at(1, 999).before(&at(2, 0)));
    assert!(at(2, 0).before(&at(2, 1)));
    assert!(!at(2, 1).before(&at(2, 1)));
    assert!(!at(3, 0).before(&at(2, 5)));
    assert!(at(-1, 0).before(&at(0, 0)));
}

#[test]
fn errors_have_messages() {
    assert_eq!(Error::NotFound.message(), "not found");
    assert_eq!(Error::Infrastructure.message(), "storage error");
}

fn row(id: i64, name: &str, created: Timestamp, finished: Option<Timestamp>) -> ListRow {
    ListRow { id, name: name.to_string(), created, finished }
}

fn edge(list_id: i64, item_id: i64, amount: i64) -> Edge {
    Edge { list_id, item_id, amount }
}

fn item(id: i64, name: &str) -> Item {
    Item { id, name: name.to_string() }
}

#[test]
fn loaded_store_holds_the_rows() {
    let mut store = Store::load(
        vec![item(1, "flour"), item(4, "salt")],
        vec![row(2, "groceries", at(10, 0), None), row(3, "party", at(11, 0), Some(at(12, 0)))],
        vec![edge(3, 4, 1), edge(2, 1, 2), edge(2, 9, 5), edge(3, 1, 6)],
    )
    .unwrap();
    assert_eq!(store.list_items(), vec![item(1, "flour"), item(4, "salt")]);
    assert_eq!(
        store.get_list(2),
        Ok(List {
            id: 2,
            name: "groceries".to_string(),
            created: at(10, 0),
            finished: None,
            items: vec![shown(1, "flour", 2), shown(9, "", 5)],
        })
    );
    assert_eq!(
        store.get_list(3),
        Ok(List {
            id: 3,
            name: "party".to_string(),
            created: at(11, 0),
            finished: Some(at(12, 0)),
            items: vec![shown(4, "salt", 1), shown(1, "flour", 6)],
        })
    );
    assert_eq!(store.create_item(new_item("sugar")).unwrap().id, 5);
    assert_eq!(store.create_list_at(new_list("trip"), at(13, 0)).unwrap().id, 4);
}

#[test]
fn loading_nothing_gives_the_empty_store() {
    let mut store = Store::load(vec![], vec![], vec![]).unwrap();
    assert_eq!(store.create_item(new_item("flour")).unwrap().id, 1);
    assert_eq!(store.create_list_at(new_list("groceries"), at(1, 0)).unwrap().id, 1);
}

#[test]
fn loading_rejects_broken_rows() {
    assert_eq!(Store::load(vec![item(2, "a"), item(2, "b")], vec![], vec![]).err(), Some(Error::Infrastructure));
    assert_eq!(Store::load(vec![item(3, "a"), item(2, "b")], vec![], vec![]).err(), Some(Error::Infrastructure));
    assert_eq!(Store::load(vec![item(0, "a")], vec![], vec![]).err(), Some(Error::Infrastructure));
    assert_eq!(Store::load(vec![item(i64::MAX, "a")], vec![], vec![]).err(), Some(Error::Infrastructure));
    assert_eq!(
        Store::load(vec![], vec![row(1, "a", at(1, 0), None), row(1, "b", at(2, 0), None)], vec![]).err(),
        Some(Error::Infrastructure)
    );
    assert_eq!(Store::load(vec![], vec![row(-1, "a", at(1, 0), None)], vec![]).err(), Some(Error::Infrastructure));
    assert_eq!(
        Store::load(vec![], vec![], vec![edge(1, 2, 3), edge(2, 2, 3), edge(1, 2, 4)]).err(),
        Some(Error::Infrastructure)
    );
    assert!(Store::load(vec![], vec![], vec![edge(1, 2, 3), edge(2, 2, 3), edge(1, 3, 3)]).is_ok());
}

#[test]
fn no_identity_is_left_after_the_last() {
    let mut store = Store::load(vec![item(i64::MAX - 1, "a")], vec![row(i64::MAX - 1, "l", at(1, 0), None)], vec![]).unwrap();
    assert_eq!(store.create_item(new_item("b")), Err(Error::Infrastructure));
    assert_eq!(store.create_list_at(new_list("m"), at(2, 0)), Err(Error::Infrastructure));
    assert_eq!(store.create_list(new_list("m")), Err(Error::Infrastructure));
    assert_eq!(store.list_items(), vec![item(i64::MAX - 1, "a")]);
    assert_eq!(store.list_lists().len(), 1);
}

#[test]
fn unique_pairs_are_recognised() {
    assert!(has_unique_pairs(&vec![]));
    assert!(has_unique_pairs(&vec![edge(1, 1, 1), edge(1, 2, 1), edge(2, 1, 1)]));
    assert!(!has_unique_pairs(&vec![edge(1, 1, 1), edge(1, 2, 1), edge(1, 1, 7)]));
}

#[test]
fn replacement_deletes_then_inserts_in_order() {
    assert_eq!(replace_statements(3, &vec![]), vec![Statement::DeleteEdges { list_id: 3 }]);
    assert_eq!(
        replace_statements(3, &vec![entry(5, 2), shown(1, "flour", -1), entry(5, 7)]),
        vec![
            Statement::DeleteEdges { list_id: 3 },
            Statement::InsertEdge { edge: edge(3, 5, 2) },
            Statement::InsertEdge { edge: edge(3, 1, -1) },
            Statement::InsertEdge { edge: edge(3, 5, 7) },
        ]
    );
}
