use vstd::prelude::*;

use crate::server::datatypes::{Retention, Timestamp};

verus! {

/// A topic as a client sees it: with its identifier.
#[derive(Debug)]
pub struct Topic {
    pub uuid: u128,
    pub name: String,
    pub creator: String,
    pub timestamp: Timestamp,
    pub retention: Retention,
}

impl Clone for Topic {
    fn clone(&self) -> (copy: Self)
        ensures
            copy == *self,
    {
        Topic {
            uuid: self.uuid,
            name: self.name.clone(),
            creator: self.creator.clone(),
            timestamp: self.timestamp,
            retention: self.retention,
        }
    }
}

/// A message as a client sees it.
#[derive(Debug)]
pub struct Message {
    pub uuid: u128,
    pub topic_uuid: u128,
    pub author_name: String,
    pub content: String,
    pub timestamp: Timestamp,
    pub key: Option<String>,
}

impl Clone for Message {
    fn clone(&self) -> (copy: Self)
        ensures
            copy == *self,
    {
        Message {
            uuid: self.uuid,
            topic_uuid: self.topic_uuid,
            author_name: self.author_name.clone(),
            content: self.content.clone(),
            timestamp: self.timestamp,
            key: match &self.key {
                None => None,
                Some(k) => Some(k.clone()),
            },
        }
    }
}

} // verus!
