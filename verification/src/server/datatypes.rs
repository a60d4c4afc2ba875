use vstd::prelude::*;

verus! {

pub type Username = String;

/// How long a topic keeps its messages, in seconds; `None` keeps them for good.
pub type Retention = Option<u64>;

/// An instant: whole seconds since the Unix epoch, and the nanoseconds
/// past them.
#[derive(Clone, Copy, Debug, PartialEq, Eq, Structural)]
pub struct Timestamp {
    pub seconds: i64,
    pub nanos: u32,
}

impl Default for Timestamp {
    fn default() -> (t: Self)
        ensures
            t == (Timestamp { seconds: 0, nanos: 0 }),
    {
        Timestamp { seconds: 0, nanos: 0 }
    }
}

/// A topic as the broker keeps it. Its identifier is the key it is stored under.
#[derive(Debug)]
pub struct Topic {
    pub name: String,
    pub creator: Username,
    pub timestamp: Timestamp,
    pub retention: Retention,
}

impl Clone for Topic {
    fn clone(&self) -> (copy: Self)
        ensures
            copy == *self,
    {
        Topic {
            name: self.name.clone(),
            creator: self.creator.clone(),
            timestamp: self.timestamp,
            retention: self.retention,
        }
    }
}

impl Default for Topic {
    fn default() -> (t: Self)
        ensures
            t.name@.len() == 0,
            t.creator@.len() == 0,
            t.timestamp == (Timestamp { seconds: 0, nanos: 0 }),
            t.retention.is_none(),
    {
        Topic {
            name: String::new(),
            creator: String::new(),
            timestamp: Timestamp { seconds: 0, nanos: 0 },
            retention: None,
        }
    }
}

/// A message as the broker keeps it.
#[derive(Debug)]
pub struct Message {
    pub uuid: u128,
    pub topic_uuid: u128,
    pub author_name: Username,
    pub content: String,
    pub timestamp: Timestamp,
    pub key: Option<String>,
}

impl Clone for Message {
    fn clone(&self) -> (copy: Self)
        ensures
            copy == *self,
    {
        Message {
            uuid: self.uuid,
            topic_uuid: self.topic_uuid,
            author_name: self.author_name.clone(),
            content: self.content.clone(),
            timestamp: self.timestamp,
            key: match &self.key {
                None => None,
                Some(k) => Some(k.clone()),
            },
        }
    }
}

impl Default for Message {
    fn default() -> (m: Self)
        ensures
            m.uuid == 0,
            m.topic_uuid == 0,
            m.author_name@.len() == 0,
            m.content@.len() == 0,
            m.timestamp == (Timestamp { seconds: 0, nanos: 0 }),
            m.key.is_none(),
    {
        Message {
            uuid: 0,
            topic_uuid: 0,
            author_name: String::new(),
            content: String::new(),
            timestamp: Timestamp { seconds: 0, nanos: 0 },
            key: None,
        }
    }
}

/// The address of a peer: its host as a 128-bit number and its port.
#[derive(Clone, Copy, Debug, PartialEq, Eq, Structural)]
pub struct PeerAddress {
    pub host: u128,
    pub port: u16,
}

} // verus!
