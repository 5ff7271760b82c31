use serde_json::Value;
use table_store::db::{Db, Outcome};
use table_store::error::DbError;

const TABLE_NAME: &str = "sample";

fn object(fields: Vec<(&str, Value)>) -> Value {
    let mut map = serde_json::Map::new();
    for (key, value) in fields {
        map.insert(key.to_string(), value);
    }
    Value::Object(map)
}

fn record(id: u32, value: &str) -> Value {
    object(vec![("id", Value::from(id)), ("value", Value::from(value))])
}

fn init_db() -> Db {
    let mut db = Db::init(String::new()).unwrap();
    db.add_table(TABLE_NAME.to_string(), true).unwrap();
    db
}

fn upsert_item(db: &mut Db, value: &str) -> (u32, Value) {
    let id = db.get_increment_last_id(TABLE_NAME.to_string()).unwrap().value.unwrap();
    let to_insert = record(id, value);
    db.insert_or_update(TABLE_NAME.to_string(), id, to_insert.clone()).unwrap();
    (id, to_insert)
}

fn parsed(outcome_snapshot: &Option<String>) -> Value {
    serde_json::from_str(outcome_snapshot.as_ref().unwrap()).unwrap()
}

#[test]
fn test_init() {
    let db = Db::init(String::new());
    assert!(db.is_ok())
}

#[test]
fn test_add_table() {
    let db = init_db();
    let result = db.find_all(TABLE_NAME.to_string());
    assert_eq!(result.is_some(), true);
}

#[test]
fn test_insert() {
    let mut db = init_db();
    let (id, inserted) = upsert_item(&mut db, "sample");

    let data = db.find_by_id(TABLE_NAME.to_string(), id).unwrap();
    assert_eq!(data, inserted);

    let (another_id, another_inserted) = upsert_item(&mut db, "another value");
    let another_data = db.find_by_id(TABLE_NAME.to_string(), another_id).unwrap();
    assert_eq!(another_data, another_inserted)
}

#[test]
fn test_update() {
    let mut db = init_db();

    let (id, inserted) = upsert_item(&mut db, "sample");
    let data = db.find_by_id(TABLE_NAME.to_string(), id).unwrap();
    assert_eq!(data, inserted);

    let to_update = record(id, "updated");
    db.insert_or_update(TABLE_NAME.to_string(), id, to_update.clone()).unwrap();

    let updated_data = db.find_by_id(TABLE_NAME.to_string(), id).unwrap();
    assert_eq!(updated_data, to_update)
}

#[test]
fn test_delete() {
    let mut db = init_db();

    let (id, inserted) = upsert_item(&mut db, "sample");

    let data = db.find_by_id(TABLE_NAME.to_string(), id).unwrap();
    assert_eq!(data, inserted);

    db.delete_by_id(TABLE_NAME.to_string(), id).unwrap();

    let data = db.find_by_id(TABLE_NAME.to_string(), id);
    assert_eq!(data.is_none(), true);
}

#[test]
fn test_delete_all() {
    let mut db = init_db();

    let (id, inserted) = upsert_item(&mut db, "sample");

    let data = db.find_by_id(TABLE_NAME.to_string(), id).unwrap();
    assert_eq!(data, inserted);

    let (another_id, another_inserted) = upsert_item(&mut db, "another value");
    let another_data = db.find_by_id(TABLE_NAME.to_string(), another_id).unwrap();
    assert_eq!(another_data, another_inserted);

    db.delete_all(TABLE_NAME.to_string()).unwrap();

    let all_result = db.find_all(TABLE_NAME.to_string()).unwrap();

    assert_eq!(all_result.len(), 0);
}

#[test]
fn test_find_by_value() {
    let mut db = init_db();
    upsert_item(&mut db, "sample");

    let result = db
        .find_by_value(TABLE_NAME.to_string(), "value".to_string(), "sample".to_string())
        .unwrap();

    assert_eq!(result.len(), 1)
}

#[test]
fn new_store_has_no_table() {
    let db = Db::new();
    assert!(db.find_all("item".to_string()).is_none());
    assert!(db.find_by_id("item".to_string(), 1).is_none());
    assert!(db.find_by_value("item".to_string(), "a".to_string(), "b".to_string()).is_none());
    assert_eq!(parsed(&Some(db.snapshot().unwrap())), object(vec![]));
}

#[test]
fn recreated_table_is_empty_not_absent() {
    let mut db = init_db();
    upsert_item(&mut db, "one");
    upsert_item(&mut db, "two");
    let out = db.add_table(TABLE_NAME.to_string(), true).unwrap();
    assert!(out.snapshot.is_some());
    assert_eq!(db.find_all(TABLE_NAME.to_string()), Some(vec![]));
    let id = db.get_increment_last_id(TABLE_NAME.to_string()).unwrap().value;
    assert_eq!(id, Some(1));
}

#[test]
fn add_existing_table_without_recreate_changes_nothing() {
    let mut db = init_db();
    let (id, inserted) = upsert_item(&mut db, "kept");
    let out = db.add_table(TABLE_NAME.to_string(), false).unwrap();
    assert!(out.snapshot.is_none());
    assert_eq!(db.find_by_id(TABLE_NAME.to_string(), id), Some(inserted));
    let next = db.get_increment_last_id(TABLE_NAME.to_string()).unwrap().value;
    assert_eq!(next, Some(2));
}

#[test]
fn add_missing_table_without_recreate_creates_it() {
    let mut db = Db::new();
    let out = db.add_table("user".to_string(), false).unwrap();
    assert_eq!(
        parsed(&out.snapshot),
        object(vec![(
            "user",
            object(vec![("next_id", Value::from(1u32)), ("data", object(vec![]))])
        )])
    );
    assert_eq!(db.find_all("user".to_string()), Some(vec![]));
}

#[test]
fn last_write_wins() {
    let mut db = init_db();
    for text in ["a", "b", "c", "d"] {
        db.insert_or_update(TABLE_NAME.to_string(), 7, record(7, text)).unwrap();
    }
    assert_eq!(db.find_by_id(TABLE_NAME.to_string(), 7), Some(record(7, "d")));
    assert_eq!(db.find_all(TABLE_NAME.to_string()).unwrap().len(), 1);
}

#[test]
fn upsert_answers_with_the_stored_value() {
    let mut db = init_db();
    let out = db.insert_or_update(TABLE_NAME.to_string(), 3, record(3, "x")).unwrap();
    assert_eq!(out.value, Some(record(3, "x")));
    assert!(out.snapshot.is_some());
}

#[test]
fn upsert_into_missing_table_stores_and_writes_nothing() {
    let mut db = init_db();
    let out = db.insert_or_update("nowhere".to_string(), 1, record(1, "x")).unwrap();
    assert_eq!(out.value, None);
    assert!(out.snapshot.is_none());
    assert!(db.find_all("nowhere".to_string()).is_none());
}

#[test]
fn ids_ascend_across_deletes() {
    let mut db = init_db();
    let mut issued: Vec<u32> = Vec::new();
    for round in 0..3 {
        let (id, _) = upsert_item(&mut db, "x");
        issued.push(id);
        if round == 0 {
            db.delete_by_id(TABLE_NAME.to_string(), id).unwrap();
        } else {
            db.delete_all(TABLE_NAME.to_string()).unwrap();
        }
        let again = db.get_increment_last_id(TABLE_NAME.to_string()).unwrap().value.unwrap();
        issued.push(again);
    }
    assert_eq!(issued, vec![1, 2, 3, 4, 5, 6]);
}

#[test]
fn next_id_of_missing_table_is_none_without_snapshot() {
    let mut db = init_db();
    let out = db.get_increment_last_id("nowhere".to_string()).unwrap();
    assert_eq!(out.value, None);
    assert!(out.snapshot.is_none());
}

#[test]
fn next_id_snapshot_holds_the_moved_counter() {
    let mut db = init_db();
    let out = db.get_increment_last_id(TABLE_NAME.to_string()).unwrap();
    assert_eq!(out.value, Some(1));
    assert_eq!(
        parsed(&out.snapshot),
        object(vec![(
            TABLE_NAME,
            object(vec![("next_id", Value::from(2u32)), ("data", object(vec![]))])
        )])
    );
}

#[test]
fn exhausted_counter_is_an_error_and_stays() {
    let text = "{\"sample\":{\"next_id\":4294967295,\"data\":{}}}".to_string();
    let mut db = Db::init(text).unwrap();
    let r = db.get_increment_last_id(TABLE_NAME.to_string());
    assert!(matches!(r, Err(DbError::IdsExhausted)));
    let r = db.get_increment_last_id(TABLE_NAME.to_string());
    assert!(matches!(r, Err(DbError::IdsExhausted)));
    assert_eq!(db.find_all(TABLE_NAME.to_string()), Some(vec![]));
}

#[test]
fn counter_just_below_the_end_hands_out_its_last_id() {
    let text = "{\"sample\":{\"next_id\":4294967294,\"data\":{}}}".to_string();
    let mut db = Db::init(text).unwrap();
    let out = db.get_increment_last_id(TABLE_NAME.to_string()).unwrap();
    assert_eq!(out.value, Some(4294967294));
    assert!(matches!(
        db.get_increment_last_id(TABLE_NAME.to_string()),
        Err(DbError::IdsExhausted)
    ));
}

#[test]
fn delete_all_keeps_the_counter() {
    let mut db = init_db();
    upsert_item(&mut db, "one");
    upsert_item(&mut db, "two");
    let out = db.delete_all(TABLE_NAME.to_string()).unwrap();
    assert_eq!(out.value, true);
    assert!(out.snapshot.is_some());
    assert_eq!(db.find_all(TABLE_NAME.to_string()), Some(vec![]));
    let next = db.get_increment_last_id(TABLE_NAME.to_string()).unwrap().value;
    assert_eq!(next, Some(3));
}

#[test]
fn delete_all_of_missing_table_is_false() {
    let mut db = init_db();
    let out = db.delete_all("nowhere".to_string()).unwrap();
    assert_eq!(out.value, false);
    assert!(out.snapshot.is_none());
}

#[test]
fn delete_by_id_tells_removed_absent_and_no_table_apart() {
    let mut db = init_db();
    let (id, inserted) = upsert_item(&mut db, "x");

    let removed = db.delete_by_id(TABLE_NAME.to_string(), id).unwrap();
    assert_eq!(removed.value, Some(Some(inserted)));
    assert!(removed.snapshot.is_some());

    let absent = db.delete_by_id(TABLE_NAME.to_string(), id).unwrap();
    assert_eq!(absent.value, Some(None));
    assert!(absent.snapshot.is_some());

    let no_table = db.delete_by_id("nowhere".to_string(), id).unwrap();
    assert_eq!(no_table.value, None);
    assert!(no_table.snapshot.is_none());
}

#[test]
fn find_all_is_in_ascending_id_order() {
    let mut db = init_db();
    for id in [10u32, 2, 33, 1, 4294967295, 0] {
        db.insert_or_update(TABLE_NAME.to_string(), id, record(id, "v")).unwrap();
    }
    let all = db.find_all(TABLE_NAME.to_string()).unwrap();
    let expected: Vec<Value> =
        [0u32, 1, 2, 10, 33, 4294967295].iter().map(|id| record(*id, "v")).collect();
    assert_eq!(all, expected);
}

fn user(id: u32, username: Value) -> Value {
    object(vec![("id", Value::from(id)), ("username", username)])
}

#[test]
fn find_by_value_finds_exactly_the_matching_records_in_order() {
    let mut db = Db::new();
    db.add_table("user".to_string(), true).unwrap();
    let records = vec![
        (5u32, user(5, Value::from("alice"))),
        (1, user(1, Value::from("bob"))),
        (3, user(3, Value::from("alice"))),
        (2, object(vec![("name", Value::from("alice"))])),
        (4, Value::from("alice")),
        (6, user(6, Value::from(7u32))),
        (7, user(7, object(vec![("username", Value::from("alice"))]))),
        (8, Value::Array(vec![Value::from("alice")])),
        (9, user(9, Value::from("alice "))),
        (10, user(10, Value::Null)),
    ];
    for (id, value) in records {
        db.insert_or_update("user".to_string(), id, value).unwrap();
    }
    let found = db
        .find_by_value("user".to_string(), "username".to_string(), "alice".to_string())
        .unwrap();
    assert_eq!(found, vec![user(3, Value::from("alice")), user(5, Value::from("alice"))]);

    let none = db
        .find_by_value("user".to_string(), "username".to_string(), "carol".to_string())
        .unwrap();
    assert_eq!(none, Vec::<Value>::new());
}

#[test]
fn scenario_item_lifecycle() {
    let mut db = Db::new();
    db.add_table("item".to_string(), true).unwrap();
    let id = db.get_increment_last_id("item".to_string()).unwrap().value.unwrap();
    assert_eq!(id, 1);
    let widget = object(vec![("id", Value::from(1u32)), ("name", Value::from("widget"))]);
    db.insert_or_update("item".to_string(), 1, widget.clone()).unwrap();
    assert_eq!(db.find_by_id("item".to_string(), 1), Some(widget.clone()));
    let deleted = db.delete_by_id("item".to_string(), 1).unwrap();
    assert_eq!(deleted.value, Some(Some(widget)));
    assert_eq!(db.find_by_id("item".to_string(), 1), None);
}

fn filled() -> Db {
    let mut db = Db::new();
    db.add_table("item".to_string(), true).unwrap();
    db.add_table("user".to_string(), true).unwrap();
    db.add_table("empty".to_string(), true).unwrap();
    for name in ["item 1", "item 2", "item 3"] {
        let id = db.get_increment_last_id("item".to_string()).unwrap().value.unwrap();
        let value = object(vec![("id", Value::from(id)), ("name", Value::from(name))]);
        db.insert_or_update("item".to_string(), id, value).unwrap();
    }
    db.delete_by_id("item".to_string(), 2).unwrap();
    let nested = object(vec![
        ("list", Value::Array(vec![Value::Null, Value::Bool(true), Value::from(-3)])),
        ("text", Value::from("a \"quoted\" \u{e9}")),
    ]);
    db.insert_or_update("user".to_string(), 12, nested).unwrap();
    db.insert_or_update("user".to_string(), 100, Value::from("plain")).unwrap();
    db
}

fn same_contents(a: &Db, b: &Db) {
    for table in ["item", "user", "empty", "missing"] {
        assert_eq!(a.find_all(table.to_string()), b.find_all(table.to_string()));
        for id in [0u32, 1, 2, 3, 12, 100, 101] {
            assert_eq!(a.find_by_id(table.to_string(), id), b.find_by_id(table.to_string(), id));
        }
    }
}

#[test]
fn snapshot_round_trip_gives_the_same_store() {
    let db = filled();
    let text = db.snapshot().unwrap();
    let mut again = Db::init(text).unwrap();
    same_contents(&db, &again);
    let next = again.get_increment_last_id("item".to_string()).unwrap().value;
    assert_eq!(next, Some(4));
    let next = again.get_increment_last_id("user".to_string()).unwrap().value;
    assert_eq!(next, Some(1));
}

#[test]
fn document_round_trip_gives_the_same_store() {
    let db = filled();
    let doc = db.document();
    let again = Db::from_document(&doc).unwrap();
    same_contents(&db, &again);
    assert_eq!(again.document(), doc);
}

#[test]
fn outcome_snapshot_is_the_snapshot_of_the_store() {
    let mut db = filled();
    let Outcome { value, snapshot } =
        db.insert_or_update("empty".to_string(), 1, Value::Bool(false)).unwrap();
    assert_eq!(value, Some(Value::Bool(false)));
    assert_eq!(snapshot, Some(db.snapshot().unwrap()));
}

#[test]
fn document_has_the_persisted_layout() {
    let mut db = Db::new();
    db.add_table("item".to_string(), true).unwrap();
    db.get_increment_last_id("item".to_string()).unwrap();
    db.insert_or_update("item".to_string(), 10, Value::from("ten")).unwrap();
    db.insert_or_update("item".to_string(), 2, Value::Null).unwrap();
    let expected = object(vec![(
        "item",
        object(vec![
            ("next_id", Value::from(2u32)),
            ("data", object(vec![("10", Value::from("ten")), ("2", Value::Null)])),
        ]),
    )]);
    assert_eq!(db.document(), expected);
}

#[test]
fn init_reads_the_persisted_layout() {
    let text = "{\"item\":{\"next_id\":7,\"data\":{\"3\":{\"id\":3,\"name\":\"c\"},\"1\":\"a\"},\"more\":true},\"user\":{\"data\":{},\"next_id\":0}}";
    let mut db = Db::init(text.to_string()).unwrap();
    assert_eq!(
        db.find_all("item".to_string()),
        Some(vec![
            Value::from("a"),
            object(vec![("id", Value::from(3u32)), ("name", Value::from("c"))])
        ])
    );
    assert_eq!(db.find_all("user".to_string()), Some(vec![]));
    let id = db.get_increment_last_id("item".to_string()).unwrap().value;
    assert_eq!(id, Some(7));
    let id = db.get_increment_last_id("user".to_string()).unwrap().value;
    assert_eq!(id, Some(0));
}

#[test]
fn init_refuses_text_that_is_not_json() {
    for text in ["not json", "{", "{\"item\":", " ", "{} {}"] {
        assert!(matches!(Db::init(text.to_string()), Err(DbError::Syntax)), "{}", text);
    }
}

#[test]
fn init_refuses_json_of_another_layout() {
    let texts = [
        "[]",
        "1",
        "null",
        "\"text\"",
        "{\"item\":1}",
        "{\"item\":{}}",
        "{\"item\":{\"next_id\":1}}",
        "{\"item\":{\"data\":{}}}",
        "{\"item\":{\"next_id\":\"1\",\"data\":{}}}",
        "{\"item\":{\"next_id\":-1,\"data\":{}}}",
        "{\"item\":{\"next_id\":1.5,\"data\":{}}}",
        "{\"item\":{\"next_id\":4294967296,\"data\":{}}}",
        "{\"item\":{\"next_id\":1,\"data\":[]}}",
        "{\"item\":{\"next_id\":1,\"data\":{\"one\":1}}}",
        "{\"item\":{\"next_id\":1,\"data\":{\"01\":1}}}",
        "{\"item\":{\"next_id\":1,\"data\":{\"-1\":1}}}",
        "{\"item\":{\"next_id\":1,\"data\":{\"+1\":1}}}",
        "{\"item\":{\"next_id\":1,\"data\":{\"\":1}}}",
        "{\"item\":{\"next_id\":1,\"data\":{\"4294967296\":1}}}",
        "{\"good\":{\"next_id\":1,\"data\":{}},\"bad\":{\"next_id\":1}}",
    ];
    for text in texts {
        assert!(matches!(Db::init(text.to_string()), Err(DbError::Layout)), "{}", text);
    }
}

#[test]
fn init_accepts_the_empty_object() {
    let db = Db::init("{}".to_string()).unwrap();
    assert!(db.find_all("item".to_string()).is_none());
}

#[test]
fn from_parsed_maps_both_failures() {
    let syntax = serde_json::from_str::<Value>("nope");
    assert!(matches!(Db::from_parsed(syntax), Err(DbError::Syntax)));
    let layout = serde_json::from_str::<Value>("[1]");
    assert!(matches!(Db::from_parsed(layout), Err(DbError::Layout)));
    let fine = serde_json::from_str::<Value>("{\"t\":{\"next_id\":1,\"data\":{}}}");
    assert!(Db::from_parsed(fine).unwrap().find_all("t".to_string()).is_some());
}

#[test]
fn printed_maps_the_failure_to_serialize() {
    let failed = serde_json::from_str::<String>("1").map_err(|e| e);
    assert!(matches!(table_store::db::printed(failed), Err(DbError::Serialize)));
    assert_eq!(table_store::db::printed(Ok("{}".to_string())), Ok("{}".to_string()));
}

#[test]
fn tables_do_not_share_records_or_counters() {
    let mut db = Db::new();
    db.add_table("a".to_string(), false).unwrap();
    db.add_table("b".to_string(), false).unwrap();
    let a1 = db.get_increment_last_id("a".to_string()).unwrap().value;
    let a2 = db.get_increment_last_id("a".to_string()).unwrap().value;
    let b1 = db.get_increment_last_id("b".to_string()).unwrap().value;
    assert_eq!((a1, a2, b1), (Some(1), Some(2), Some(1)));
    db.insert_or_update("a".to_string(), 1, Value::from("in a")).unwrap();
    assert_eq!(db.find_by_id("b".to_string(), 1), None);
    db.delete_all("b".to_string()).unwrap();
    assert_eq!(db.find_by_id("a".to_string(), 1), Some(Value::from("in a")));
    db.add_table("a".to_string(), true).unwrap();
    assert_eq!(db.find_by_id("a".to_string(), 1), None);
    let b2 = db.get_increment_last_id("b".to_string()).unwrap().value;
    assert_eq!(b2, Some(2));
}
