use smalluniverse::tsv_event_store::TSVEventStore;
use smalluniverse::types::{Error, EventId, KnownEvent};

fn id_of(text: &str) -> EventId {
    EventId::from_text(&text.as_bytes().to_vec()).expect("test identifier text is valid")
}

fn bytes(text: &str) -> Vec<u8> {
    text.as_bytes().to_vec()
}

#[test]
fn get_latest_event() {
    let tsv_content = bytes(
        "e2f71d24-0e36-49a5-9375-4294242580e9\t{}\n\
         6e6efb22-1cab-443d-8e6e-f091c7a7706f\t{}\n\
         00c9ceb7-37b2-49af-9e16-56eea69e5325\t{}",
    );
    let tsv_store = TSVEventStore::new("test.tsv");

    let latest_id = tsv_store.get_latest_event(&tsv_content).unwrap().unwrap();
    let expected_uuid = id_of("00c9ceb7-37b2-49af-9e16-56eea69e5325");

    assert_eq!(latest_id, expected_uuid);
}

#[test]
fn get_latest_event_trailing_newline() {
    let tsv_content = bytes(
        "e2f71d24-0e36-49a5-9375-4294242580e9\t{}\n\
         6e6efb22-1cab-443d-8e6e-f091c7a7706f\t{}\n\
         00c9ceb7-37b2-49af-9e16-56eea69e5325\t{}\n",
    );
    let tsv_store = TSVEventStore::new("test.tsv");

    let latest_id = tsv_store.get_latest_event(&tsv_content).unwrap().unwrap();
    let expected_uuid = id_of("00c9ceb7-37b2-49af-9e16-56eea69e5325");

    assert_eq!(latest_id, expected_uuid);
}

#[test]
fn get_latest_event_on_empty_file() {
    let tsv_content = bytes("");
    let tsv_store = TSVEventStore::new("test.tsv");

    let result = tsv_store.get_latest_event(&tsv_content).unwrap();

    assert!(result.is_none());
}

#[test]
fn get_latest_event_invalid_file() {
    let tsv_content = bytes("00001\t{}\n00002\t{}\n00003:{}");
    let tsv_store = TSVEventStore::new("test.tsv");

    let result = tsv_store.get_latest_event(&tsv_content);
    assert!(result.is_err());
    match result {
        Err(Error::MissingTabError(_)) => {}
        _ => panic!("Should have been a missing tab error"),
    }
}

#[test]
fn publish_file_new_file() {
    let tsv_store = TSVEventStore::new("file.tsv");
    let event_id = id_of("f7fa5475-620c-4021-941f-99b63a280b92");

    // the file does not exist yet: no last byte, no healing newline
    let appended = tsv_store.publish_bytes(event_id, &bytes("\"EmptyEvent\""), None);

    assert_eq!(
        appended,
        bytes("f7fa5475-620c-4021-941f-99b63a280b92\t\"EmptyEvent\"\n")
    );
}

#[test]
fn publish_to_existing_file() {
    let existing = bytes("0000\t\"EmptyEvent\"\n");
    let tsv_store = TSVEventStore::new("file.tsv");
    let event_id = id_of("f7fa5475-620c-4021-941f-99b63a280b92");

    let appended =
        tsv_store.publish_bytes(event_id, &bytes("\"EmptyEvent\""), existing.last().copied());

    let mut content = existing.clone();
    content.extend_from_slice(&appended);
    assert_eq!(
        content,
        bytes("0000\t\"EmptyEvent\"\nf7fa5475-620c-4021-941f-99b63a280b92\t\"EmptyEvent\"\n")
    );
}

#[test]
fn publish_to_file_with_no_trailing_newline() {
    let existing = bytes("0000\t\"EmptyEvent\"");
    let tsv_store = TSVEventStore::new("file.tsv");
    let event_id = id_of("f7fa5475-620c-4021-941f-99b63a280b92");

    let appended =
        tsv_store.publish_bytes(event_id, &bytes("\"EmptyEvent\""), existing.last().copied());

    // exactly one newline is inserted before the record; the prior bytes stay
    assert_eq!(appended[0], b'\n');
    assert_eq!(appended.iter().filter(|b| **b == b'\n').count(), 2);
    let mut content = existing.clone();
    content.extend_from_slice(&appended);
    assert_eq!(
        content,
        bytes("0000\t\"EmptyEvent\"\nf7fa5475-620c-4021-941f-99b63a280b92\t\"EmptyEvent\"\n")
    );
}

#[test]
fn read_events_returns_iterator_over_events() {
    let file_contents = bytes(
        "f7fa5475-620c-4021-941f-99b63a280b92\t{\"SaidGreeting\": \"Hello\"}\n\
         5e63e1c8-7204-4f3b-a2b2-9c9f936294b1\t{\"SaidGreeting\": \"G'day\"}\n\
         39d5c03b-b62f-4a20-a21a-347e1cc29c1b\t\"EmptyEvent\"\n",
    );
    let event_store = TSVEventStore::new("test.tsv");

    let events: Vec<_> = event_store
        .read_events(&file_contents, None)
        .into_iter()
        .map(|r| r.unwrap())
        .collect();

    let expected_events = vec![
        KnownEvent {
            uuid: id_of("f7fa5475-620c-4021-941f-99b63a280b92"),
            payload: bytes("{\"SaidGreeting\": \"Hello\"}"),
        },
        KnownEvent {
            uuid: id_of("5e63e1c8-7204-4f3b-a2b2-9c9f936294b1"),
            payload: bytes("{\"SaidGreeting\": \"G'day\"}"),
        },
        KnownEvent {
            uuid: id_of("39d5c03b-b62f-4a20-a21a-347e1cc29c1b"),
            payload: bytes("\"EmptyEvent\""),
        },
    ];

    assert_eq!(events, expected_events);
}

#[test]
fn read_events_returns_empty_iterator_for_empty_file() {
    let event_store = TSVEventStore::new("test.tsv");

    let events: Vec<_> = event_store
        .read_events(&bytes(""), None)
        .into_iter()
        .map(|r| r.unwrap())
        .collect();

    assert!(events.is_empty());
}

#[test]
fn read_events_returns_iterator_starting_from_specified_id() {
    let file_contents = bytes(
        "f7fa5475-620c-4021-941f-99b63a280b92\t{\"SaidGreeting\": \"Hello\"}\n\
         5e63e1c8-7204-4f3b-a2b2-9c9f936294b1\t{\"SaidGreeting\": \"G'day\"}\n\
         39d5c03b-b62f-4a20-a21a-347e1cc29c1b\t\"EmptyEvent\"\n\n\
         cbabcaae-5b9d-4a65-88d1-a71f184ca7b2\t{\"SaidGreeting\": \"Yo\"}\n",
    );
    let event_store = TSVEventStore::new("test.tsv");

    let events: Vec<_> = event_store
        .read_events(
            &file_contents,
            Some(id_of("39d5c03b-b62f-4a20-a21a-347e1cc29c1b")),
        )
        .into_iter()
        .map(|r| r.unwrap())
        .collect();

    let expected_events = vec![
        KnownEvent {
            uuid: id_of("39d5c03b-b62f-4a20-a21a-347e1cc29c1b"),
            payload: bytes("\"EmptyEvent\""),
        },
        KnownEvent {
            uuid: id_of("cbabcaae-5b9d-4a65-88d1-a71f184ca7b2"),
            payload: bytes("{\"SaidGreeting\": \"Yo\"}"),
        },
    ];

    assert_eq!(events, expected_events);
}

#[test]
fn read_events_from_absent_id_yields_nothing() {
    let file_contents = bytes(
        "f7fa5475-620c-4021-941f-99b63a280b92\t{\"SaidGreeting\": \"Hello\"}\n\
         5e63e1c8-7204-4f3b-a2b2-9c9f936294b1\t{\"SaidGreeting\": \"G'day\"}\n",
    );
    let event_store = TSVEventStore::new("test.tsv");

    let events = event_store.read_events(
        &file_contents,
        Some(id_of("00000000-0000-0000-0000-000000000001")),
    );

    assert!(events.is_empty());
}

#[test]
fn read_events_surfaces_malformed_line_at_its_position() {
    let file_contents = bytes(
        "f7fa5475-620c-4021-941f-99b63a280b92\t{}\n\
         this line has no tab\n\
         not-a-valid-uuid-at-all-but-with-tab\t{}\n\
         5e63e1c8-7204-4f3b-a2b2-9c9f936294b1\t{}\n",
    );
    let event_store = TSVEventStore::new("test.tsv");

    let events = event_store.read_events(&file_contents, None);

    assert_eq!(events.len(), 4);
    assert!(events[0].is_ok());
    assert!(matches!(events[1], Err(Error::MissingTabError(_))));
    assert!(matches!(events[2], Err(Error::UuidError(_, _))));
    assert!(events[3].is_ok());
}

#[test]
fn publish_then_read_round_trip_on_empty_store() {
    let store = TSVEventStore::new("test.tsv");
    let id = id_of("cbabcaae-5b9d-4a65-88d1-a71f184ca7b2");
    let payload = bytes("{\"SaidGreeting\": \"Yo\"}");

    let content = store.publish_bytes(id, &payload, None);
    let events: Vec<_> = store
        .read_events(&content, None)
        .into_iter()
        .map(|r| r.unwrap())
        .collect();

    assert_eq!(
        events,
        vec![KnownEvent { uuid: id, payload: payload.clone() }]
    );
    let latest = store.get_latest_event(&content).unwrap();
    assert_eq!(latest, Some(id));
}

#[test]
fn publishes_are_read_back_in_publish_order() {
    let store = TSVEventStore::new("test.tsv");
    let ids = [
        id_of("f7fa5475-620c-4021-941f-99b63a280b92"),
        id_of("5e63e1c8-7204-4f3b-a2b2-9c9f936294b1"),
        id_of("39d5c03b-b62f-4a20-a21a-347e1cc29c1b"),
    ];
    let payloads = [bytes("\"first\""), bytes("\"second\""), bytes("\"third\"")];

    let mut content: Vec<u8> = Vec::new();
    for (id, payload) in ids.iter().zip(payloads.iter()) {
        let appended = store.publish_bytes(*id, payload, content.last().copied());
        content.extend_from_slice(&appended);
    }

    let events: Vec<_> = store
        .read_events(&content, None)
        .into_iter()
        .map(|r| r.unwrap())
        .collect();
    assert_eq!(events.len(), 3);
    for k in 0..3 {
        assert_eq!(events[k].uuid, ids[k]);
        assert_eq!(events[k].payload, payloads[k]);
    }
    assert_eq!(store.get_latest_event(&content).unwrap(), Some(ids[2]));

    // resuming from the second identifier yields it and everything after it
    let resumed = store.read_events(&content, Some(ids[1]));
    assert_eq!(resumed.len(), 2);
    assert_eq!(resumed[0].as_ref().unwrap().uuid, ids[1]);
    assert_eq!(resumed[1].as_ref().unwrap().uuid, ids[2]);
}

#[test]
fn blank_lines_are_skipped_on_read() {
    let file_contents = bytes(
        "\n   \nf7fa5475-620c-4021-941f-99b63a280b92\t{}\n\n\t\n5e63e1c8-7204-4f3b-a2b2-9c9f936294b1\t{}\n  \n",
    );
    let store = TSVEventStore::new("test.tsv");

    let events: Vec<_> = store
        .read_events(&file_contents, None)
        .into_iter()
        .map(|r| r.unwrap())
        .collect();
    assert_eq!(events.len(), 2);
    assert_eq!(events[0].uuid, id_of("f7fa5475-620c-4021-941f-99b63a280b92"));
    assert_eq!(events[1].uuid, id_of("5e63e1c8-7204-4f3b-a2b2-9c9f936294b1"));

    // the latest event comes from the last non-blank line
    let latest = store.get_latest_event(&file_contents).unwrap();
    assert_eq!(latest, Some(id_of("5e63e1c8-7204-4f3b-a2b2-9c9f936294b1")));
}

#[test]
fn error_messages_carry_their_context() {
    let store = TSVEventStore::new("test.tsv");
    let err = store
        .get_latest_event(&bytes("no tab on this line"))
        .unwrap_err();
    assert_eq!(err.message(), "record line has no tab delimiter");

    let io = Error::IoError(String::from("disk on fire"), String::from("failed to read"));
    assert_eq!(io.message(), "failed to read. (disk on fire)");
}

#[test]
fn uuid_error_message_renders_the_offending_text() {
    let store = TSVEventStore::new("test.tsv");
    let err = store
        .get_latest_event(&bytes("not-a-valid-identifier	{}"))
        .unwrap_err();
    assert_eq!(
        err.message(),
        "record line does not start with a valid identifier. (not-a-valid-identifier)"
    );
}
