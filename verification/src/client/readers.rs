use vstd::prelude::*;

use crate::client::datatypes::{Message, Topic};
use crate::outside::{chrono_accepts, timestamp_in_range, uuid_from_pair};
use crate::server::datatypes::Timestamp;
use crate::server::fillers::{joined, WireMessage, WireTimestamp, WireTopic, WireUuid};
use crate::server::services::topic::TopicError;

verus! {

/// What a client makes of a record that it cannot read.
#[derive(Clone, Copy, Debug, PartialEq, Eq, Structural)]
pub enum ReadError {
    /// The instant is none that a calendar knows.
    BadTimestamp,
}

pub fn read_capnp_uuid(reader: WireUuid) -> (uuid: u128)
    ensures
        uuid == joined(reader.upper, reader.lower),
{
    uuid_from_pair(reader.upper, reader.lower)
}

/// The instant that came over the wire, if it is one.
pub fn read_capnp_timestamp(reader: WireTimestamp) -> (timestamp: Option<Timestamp>)
    ensures
        timestamp.is_some() == chrono_accepts(reader.seconds, reader.nanos),
        timestamp matches Some(t) ==> t.seconds == reader.seconds && t.nanos == reader.nanos,
{
    if timestamp_in_range(reader.seconds, reader.nanos) {
        Some(Timestamp { seconds: reader.seconds, nanos: reader.nanos })
    } else {
        None
    }
}

/// The message that came over the wire. It comes without a key.
pub fn read_capnp_message(reader: WireMessage) -> (message: Result<Message, ReadError>)
    ensures
        message.is_ok() == chrono_accepts(reader.timestamp.seconds, reader.timestamp.nanos),
        message matches Ok(m) ==> {
            &&& m.uuid == joined(reader.uuid.upper, reader.uuid.lower)
            &&& m.topic_uuid == joined(reader.topic_uuid.upper, reader.topic_uuid.lower)
            &&& m.author_name == reader.author_name
            &&& m.content == reader.content
            &&& m.timestamp.seconds == reader.timestamp.seconds
            &&& m.timestamp.nanos == reader.timestamp.nanos
            &&& m.key.is_none()
        },
{
    let timestamp = match read_capnp_timestamp(reader.timestamp) {
        None => {
            return Err(ReadError::BadTimestamp);
        },
        Some(timestamp) => timestamp,
    };
    Ok(
        Message {
            uuid: read_capnp_uuid(reader.uuid),
            topic_uuid: read_capnp_uuid(reader.topic_uuid),
            author_name: reader.author_name,
            content: reader.content,
            timestamp,
            key: None,
        },
    )
}

/// The topic that came over the wire.
pub fn read_capnp_topic(reader: WireTopic) -> (topic: Result<Topic, ReadError>)
    ensures
        topic.is_ok() == chrono_accepts(reader.created_at.seconds, reader.created_at.nanos),
        topic matches Ok(t) ==> {
            &&& t.uuid == joined(reader.uuid.upper, reader.uuid.lower)
            &&& t.name == reader.name
            &&& t.creator == reader.owner_username
            &&& t.timestamp.seconds == reader.created_at.seconds
            &&& t.timestamp.nanos == reader.created_at.nanos
            &&& t.retention == reader.retention
        },
{
    let timestamp = match read_capnp_timestamp(reader.created_at) {
        None => {
            return Err(ReadError::BadTimestamp);
        },
        Some(timestamp) => timestamp,
    };
    Ok(
        Topic {
            uuid: read_capnp_uuid(reader.uuid),
            name: reader.name,
            creator: reader.owner_username,
            timestamp,
            retention: reader.retention,
        },
    )
}

/// What a client tells its user when a topic request was turned down.
pub open spec fn topic_error_text(error: TopicError) -> Seq<char> {
    match error {
        TopicError::NotFound => "Topic does not exist"@,
        TopicError::AlreadyExists => "Topic already exists"@,
        TopicError::NotAuthenticated => "Peer is not logged in"@,
    }
}

/// Turns the refusal of a topic request into the failure that a client
/// reports, with the text for its user. It never succeeds.
pub fn read_capnp_topic_error(topic_reader: TopicError) -> (failure: Result<(), String>)
    ensures
        failure.is_err(),
        failure matches Err(text) ==> text@ == topic_error_text(topic_reader),
{
    let err_message = match topic_reader {
        TopicError::NotFound => "Topic does not exist",
        TopicError::AlreadyExists => "Topic already exists",
        TopicError::NotAuthenticated => "Peer is not logged in",
    };
    Err(err_message.to_owned())
}

} // verus!
