//! The broker's records in the form in which they go over the wire:
//! identifiers as two 64-bit halves, instants as seconds and nanoseconds.

use vstd::prelude::*;

use crate::outside::uuid_to_pair;
use crate::server::datatypes::{Message, Retention, Timestamp, Topic};

verus! {

/// An identifier on the wire.
#[derive(Clone, Copy, Debug, PartialEq, Eq, Structural)]
pub struct WireUuid {
    pub upper: u64,
    pub lower: u64,
}

/// An instant on the wire.
#[derive(Clone, Copy, Debug, PartialEq, Eq, Structural)]
pub struct WireTimestamp {
    pub seconds: i64,
    pub nanos: u32,
}

/// A message on the wire. The key does not travel.
#[derive(Debug)]
pub struct WireMessage {
    pub author_name: String,
    pub content: String,
    pub timestamp: WireTimestamp,
    pub topic_uuid: WireUuid,
    pub uuid: WireUuid,
}

/// A topic on the wire, but for its retention, which travels as a number
/// of minutes with a fraction.
#[derive(Debug)]
pub struct WireTopic {
    pub name: String,
    pub owner_username: String,
    pub uuid: WireUuid,
    pub created_at: WireTimestamp,
    pub retention: Retention,
}

/// The upper 64 bits of an identifier.
pub open spec fn upper_half(uuid: u128) -> u64 {
    (uuid >> 64) as u64
}

/// The lower 64 bits of an identifier.
pub open spec fn lower_half(uuid: u128) -> u64 {
    (uuid & 0xffff_ffff_ffff_ffff) as u64
}

/// The identifier whose halves are `upper` and `lower`.
pub open spec fn joined(upper: u64, lower: u64) -> u128 {
    ((upper as u128) << 64) | (lower as u128)
}

/// Splitting an identifier and joining the halves gives the identifier.
pub proof fn lemma_halves_join(uuid: u128)
    ensures
        joined(upper_half(uuid), lower_half(uuid)) == uuid,
{
    let upper = uuid >> 64;
    let lower = uuid & 0xffff_ffff_ffff_ffff;
    assert(upper <= 0xffff_ffff_ffff_ffff && lower <= 0xffff_ffff_ffff_ffff && ((upper << 64)
        | lower) == uuid) by (bit_vector)
        requires
            upper == uuid >> 64,
            lower == uuid & 0xffff_ffff_ffff_ffff,
    ;
}

/// Joining two halves and splitting the identifier gives the halves.
pub proof fn lemma_join_halves(upper: u64, lower: u64)
    ensures
        upper_half(joined(upper, lower)) == upper,
        lower_half(joined(upper, lower)) == lower,
{
    let wide_upper = upper as u128;
    let wide_lower = lower as u128;
    let uuid = (wide_upper << 64) | wide_lower;
    assert((uuid >> 64) == wide_upper && (uuid & 0xffff_ffff_ffff_ffff) == wide_lower)
        by (bit_vector)
        requires
            uuid == (wide_upper << 64) | wide_lower,
            wide_upper <= 0xffff_ffff_ffff_ffff,
            wide_lower <= 0xffff_ffff_ffff_ffff,
    ;
}

pub fn fill_capnp_uuid(uuid: u128) -> (wire: WireUuid)
    ensures
        wire.upper == upper_half(uuid),
        wire.lower == lower_half(uuid),
{
    let (upper, lower) = uuid_to_pair(uuid);
    WireUuid { upper, lower }
}

pub fn fill_capnp_timestamp(timestamp: Timestamp) -> (wire: WireTimestamp)
    ensures
        wire.seconds == timestamp.seconds,
        wire.nanos == timestamp.nanos,
{
    WireTimestamp { seconds: timestamp.seconds, nanos: timestamp.nanos }
}

pub fn fill_capnp_message(message: &Message) -> (wire: WireMessage)
    ensures
        wire.author_name == message.author_name,
        wire.content == message.content,
        wire.timestamp.seconds == message.timestamp.seconds,
        wire.timestamp.nanos == message.timestamp.nanos,
        wire.topic_uuid.upper == upper_half(message.topic_uuid),
        wire.topic_uuid.lower == lower_half(message.topic_uuid),
        wire.uuid.upper == upper_half(message.uuid),
        wire.uuid.lower == lower_half(message.uuid),
{
    WireMessage {
        author_name: message.author_name.clone(),
        content: message.content.clone(),
        timestamp: fill_capnp_timestamp(message.timestamp),
        topic_uuid: fill_capnp_uuid(message.topic_uuid),
        uuid: fill_capnp_uuid(message.uuid),
    }
}

pub fn fill_capnp_topic(uuid: u128, topic: &Topic) -> (wire: WireTopic)
    ensures
        wire.name == topic.name,
        wire.owner_username == topic.creator,
        wire.uuid.upper == upper_half(uuid),
        wire.uuid.lower == lower_half(uuid),
        wire.created_at.seconds == topic.timestamp.seconds,
        wire.created_at.nanos == topic.timestamp.nanos,
        wire.retention == topic.retention,
{
    WireTopic {
        name: topic.name.clone(),
        owner_username: topic.creator.clone(),
        uuid: fill_capnp_uuid(uuid),
        created_at: fill_capnp_timestamp(topic.timestamp),
        retention: topic.retention,
    }
}

} // verus!
