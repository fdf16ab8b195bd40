use smalluniverse::sqlite_event_store::SqliteEventStore;
use smalluniverse::types::{Error, EventId};

fn bytes(text: &str) -> Vec<u8> {
    text.as_bytes().to_vec()
}

fn json_data(value: &str) -> Vec<u8> {
    let mut payload = bytes("{\"data\":\"");
    payload.extend_from_slice(value.as_bytes());
    payload.extend_from_slice(b"\"}");
    payload
}

#[test]
fn test_publish_and_read_events() {
    let dir = tempfile::tempdir().unwrap();
    let file_path = dir.path().join("test.db");
    let file = file_path.to_str().unwrap();
    let table = "events";
    let store = SqliteEventStore::new(file, table).unwrap();

    let uuid = EventId::from_u128(0x0102030405060708090a0b0c0d0e0f10);
    let event = json_data("test");

    // Test publish method
    store.publish(uuid, &event).unwrap();

    // Test read_events method
    let events = store
        .read_events(None)
        .into_iter()
        .collect::<Result<Vec<_>, _>>()
        .unwrap();
    assert_eq!(events.len(), 1);
    assert_eq!(events[0].uuid, uuid);
    assert_eq!(events[0].payload, event);
}

#[test]
fn test_get_latest_event() {
    let dir = tempfile::tempdir().unwrap();
    let file_path = dir.path().join("test.db");
    let file = file_path.to_str().unwrap();
    let table = "events";
    let store = SqliteEventStore::new(file, table).unwrap();

    let uuid1 = EventId::from_u128(0x1111);
    let event1 = json_data("test1");
    store.publish(uuid1, &event1).unwrap();

    let uuid2 = EventId::from_u128(0x2222);
    let event2 = json_data("test2");
    store.publish(uuid2, &event2).unwrap();

    // Test get_latest_event method
    let latest_uuid = store
        .get_latest_event()
        .expect("get_latest_event_worked")
        .expect("event existed");
    assert_eq!(latest_uuid, uuid2);
}

#[test]
fn test_get_latest_event_none() {
    let dir = tempfile::tempdir().unwrap();
    let file_path = dir.path().join("test.db");
    let file = file_path.to_str().unwrap();
    let table = "events";
    let store = SqliteEventStore::new(file, table).unwrap();
    let latest_uuid = store.get_latest_event().expect("get_latest_event worked");
    assert!(
        latest_uuid.is_none(),
        "It should return None because no events exist yet"
    );
}

struct ColumnInfo {
    name: String,
    sql_type: String,
    not_null: bool,
    in_primary_key: bool,
}

#[test]
fn test_table_creation() {
    let dir = tempfile::tempdir().unwrap();
    let file_path = dir.path().join("test.db");
    let file = file_path.to_str().unwrap();
    let table = "events";

    // Test new method
    let _ = SqliteEventStore::new(file, table).unwrap();

    let conn = rusqlite::Connection::open(file).unwrap();
    let mut statement = conn
        .prepare(format!("PRAGMA table_info({})", table).as_str())
        .unwrap();
    let mut rows = statement
        .query_map((), |row| {
            Ok(ColumnInfo {
                name: row.get("name").unwrap(),
                sql_type: row.get("type").unwrap(),
                not_null: row.get("notnull").unwrap(),
                in_primary_key: row.get("pk").unwrap(),
            })
        })
        .unwrap();

    let first_column = rows
        .next()
        .expect("The first column exists")
        .expect("And it's valid");

    assert_eq!(first_column.name, "id", "First colum is called `id`");
    assert_eq!(first_column.sql_type, "INTEGER", "First colum is TEXT");
    assert_eq!(first_column.not_null, true, "First colum is not nullable");
    assert_eq!(
        first_column.in_primary_key, true,
        "First colum is the primary key"
    );

    let second_column = rows
        .next()
        .expect("The first column exists")
        .expect("And it's valid");

    assert_eq!(second_column.name, "uuid", "Second colum is called `id`");
    assert_eq!(second_column.sql_type, "BLOB", "Second colum is BLOB");
    assert_eq!(second_column.not_null, true, "Second colum is not nullable");
    assert_eq!(
        second_column.in_primary_key, false,
        "Second colum is not the primary key"
    );

    let third_column = rows
        .next()
        .expect("The first column exists")
        .expect("And it's valid");

    assert_eq!(third_column.name, "payload", "Third colum is called `id`");
    assert_eq!(third_column.sql_type, "TEXT", "Third colum is TEXT");
    assert_eq!(third_column.not_null, true, "Third colum is not nullable");
    assert_eq!(
        third_column.in_primary_key, false,
        "Third colum is not the primary key"
    );

    assert!(
        rows.next().is_none(),
        "There shouldn't be more than three columns"
    );
}

#[test]
fn test_table_creation_doesnt_override() {
    let dir = tempfile::tempdir().unwrap();
    let file_path = dir.path().join("test.db");
    let file = file_path.to_str().unwrap();
    let table = "events";
    let test_uuid = EventId::from_u128(0xfeedface);

    // Create one first
    let first_event_store = SqliteEventStore::new(file, table).unwrap();
    first_event_store
        .publish(test_uuid, &json_data("Hello"))
        .expect("Publish should work");

    let uuid1 = first_event_store
        .get_latest_event()
        .expect("get_latest_worked()")
        .expect("Event exists");
    assert_eq!(uuid1, test_uuid, "The first event store has the right UUID");

    // When we start a second event store, it shouldn't overwrite the first table
    let second_event_store = SqliteEventStore::new(file, table).unwrap();
    let uuid2 = second_event_store
        .get_latest_event()
        .expect("get_latest_worked()")
        .expect("Event exists");
    assert_eq!(
        uuid2, test_uuid,
        "The second event store also has the right UUID"
    );
}

#[test]
fn duplicate_identifier_fails_and_keeps_the_existing_row() {
    let dir = tempfile::tempdir().unwrap();
    let file_path = dir.path().join("test.db");
    let file = file_path.to_str().unwrap();
    let store = SqliteEventStore::new(file, "events").unwrap();

    let uuid = EventId::from_u128(0xabcdef);
    store.publish(uuid, &json_data("original")).unwrap();

    let result = store.publish(uuid, &json_data("duplicate"));
    assert!(matches!(result, Err(Error::SqliteError(_, _))));

    // the table still holds exactly the pre-existing row for that identifier
    let events = store
        .read_events(None)
        .into_iter()
        .collect::<Result<Vec<_>, _>>()
        .unwrap();
    assert_eq!(events.len(), 1);
    assert_eq!(events[0].uuid, uuid);
    assert_eq!(events[0].payload, json_data("original"));
}

#[test]
fn sqlite_publishes_are_read_back_in_publish_order() {
    let dir = tempfile::tempdir().unwrap();
    let file_path = dir.path().join("test.db");
    let file = file_path.to_str().unwrap();
    let store = SqliteEventStore::new(file, "events").unwrap();

    let ids = [
        EventId::from_u128(0x0a),
        EventId::from_u128(0x0b),
        EventId::from_u128(0x0c),
    ];
    for (k, id) in ids.iter().enumerate() {
        store.publish(*id, &json_data(&format!("event{k}"))).unwrap();
    }

    let events = store
        .read_events(None)
        .into_iter()
        .collect::<Result<Vec<_>, _>>()
        .unwrap();
    assert_eq!(events.len(), 3);
    for k in 0..3 {
        assert_eq!(events[k].uuid, ids[k]);
        assert_eq!(events[k].payload, json_data(&format!("event{k}")));
    }
    assert_eq!(store.get_latest_event().unwrap(), Some(ids[2]));
}

#[test]
fn sqlite_read_resumes_inclusively_from_an_identifier() {
    let dir = tempfile::tempdir().unwrap();
    let file_path = dir.path().join("test.db");
    let file = file_path.to_str().unwrap();
    let store = SqliteEventStore::new(file, "events").unwrap();

    let ids = [
        EventId::from_u128(0x0a),
        EventId::from_u128(0x0b),
        EventId::from_u128(0x0c),
    ];
    for (k, id) in ids.iter().enumerate() {
        store.publish(*id, &json_data(&format!("event{k}"))).unwrap();
    }

    let events = store
        .read_events(Some(ids[1]))
        .into_iter()
        .collect::<Result<Vec<_>, _>>()
        .unwrap();
    assert_eq!(events.len(), 2);
    assert_eq!(events[0].uuid, ids[1]);
    assert_eq!(events[1].uuid, ids[2]);
}

#[test]
fn sqlite_read_from_absent_identifier_is_an_error() {
    let dir = tempfile::tempdir().unwrap();
    let file_path = dir.path().join("test.db");
    let file = file_path.to_str().unwrap();
    let store = SqliteEventStore::new(file, "events").unwrap();

    store
        .publish(EventId::from_u128(0x0a), &json_data("present"))
        .unwrap();

    let events = store.read_events(Some(EventId::from_u128(0xdead)));
    assert_eq!(events.len(), 1);
    assert!(matches!(events[0], Err(Error::SqliteError(_, _))));
}
