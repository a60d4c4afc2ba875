use broker::client::readers::{
    read_capnp_message, read_capnp_timestamp, read_capnp_topic, read_capnp_topic_error,
    read_capnp_uuid, ReadError,
};
use broker::server::datatypes::{Message, Timestamp, Topic};
use broker::server::fillers::{
    fill_capnp_message, fill_capnp_timestamp, fill_capnp_topic, fill_capnp_uuid, WireTimestamp,
    WireUuid,
};
use broker::server::services::topic::TopicError;

#[test]
fn identifiers_travel_as_two_halves() {
    let id = 0xa1a2a3a4b1b2c1c2d1d2d3d4d5d6d7d8u128;
    let wire = fill_capnp_uuid(id);
    assert_eq!(wire, WireUuid { upper: 0xa1a2a3a4b1b2c1c2, lower: 0xd1d2d3d4d5d6d7d8 });
    assert_eq!(read_capnp_uuid(wire), id);
    assert_eq!(read_capnp_uuid(WireUuid { upper: 1, lower: 2 }), (1u128 << 64) | 2);
    assert_eq!(fill_capnp_uuid(u128::MAX), WireUuid { upper: u64::MAX, lower: u64::MAX });
    assert_eq!(read_capnp_uuid(fill_capnp_uuid(0)), 0);
}

#[test]
fn timestamps_travel_as_seconds_and_nanoseconds() {
    let wire = fill_capnp_timestamp(Timestamp { seconds: 1_431_648_000, nanos: 7 });
    assert_eq!(wire, WireTimestamp { seconds: 1_431_648_000, nanos: 7 });
    assert_eq!(read_capnp_timestamp(wire), Some(Timestamp { seconds: 1_431_648_000, nanos: 7 }));
    assert_eq!(read_capnp_timestamp(WireTimestamp { seconds: 0, nanos: 2_000_000_000 }), None);
    assert_eq!(read_capnp_timestamp(WireTimestamp { seconds: i64::MAX, nanos: 0 }), None);
    assert_eq!(
        read_capnp_timestamp(WireTimestamp { seconds: -1, nanos: 0 }),
        Some(Timestamp { seconds: -1, nanos: 0 })
    );
}

#[test]
fn messages_travel_without_their_key() {
    let message = Message {
        uuid: 5,
        topic_uuid: (9u128 << 64) | 1,
        author_name: "alice".to_string(),
        content: "hi".to_string(),
        timestamp: Timestamp { seconds: 10, nanos: 20 },
        key: Some("k".to_string()),
    };
    let read = read_capnp_message(fill_capnp_message(&message)).unwrap();
    assert_eq!(read.uuid, 5);
    assert_eq!(read.topic_uuid, (9u128 << 64) | 1);
    assert_eq!(read.author_name, "alice");
    assert_eq!(read.content, "hi");
    assert_eq!(read.timestamp, Timestamp { seconds: 10, nanos: 20 });
    assert_eq!(read.key, None);
}

#[test]
fn unreadable_timestamps_fail_the_record() {
    let mut wire = fill_capnp_message(&Message::default());
    wire.timestamp.nanos = 3_000_000_000;
    assert_eq!(read_capnp_message(wire).unwrap_err(), ReadError::BadTimestamp);
    let mut wire = fill_capnp_topic(1, &Topic::default());
    wire.created_at.seconds = i64::MIN;
    assert_eq!(read_capnp_topic(wire).unwrap_err(), ReadError::BadTimestamp);
}

#[test]
fn topics_travel_with_their_identifier() {
    let topic = Topic {
        name: "news".to_string(),
        creator: "bob".to_string(),
        timestamp: Timestamp { seconds: 3, nanos: 4 },
        retention: Some(120),
    };
    let read = read_capnp_topic(fill_capnp_topic(77, &topic)).unwrap();
    assert_eq!(read.uuid, 77);
    assert_eq!(read.name, "news");
    assert_eq!(read.creator, "bob");
    assert_eq!(read.timestamp, Timestamp { seconds: 3, nanos: 4 });
    assert_eq!(read.retention, Some(120));
    assert_eq!(read.clone().name, "news");
}

#[test]
fn topic_errors_become_text() {
    assert_eq!(read_capnp_topic_error(TopicError::NotFound), Err("Topic does not exist".to_string()));
    assert_eq!(
        read_capnp_topic_error(TopicError::AlreadyExists),
        Err("Topic already exists".to_string())
    );
    assert!(read_capnp_topic_error(TopicError::NotAuthenticated).is_err());
}
