use vstd::prelude::*;

use crate::outside::{current_time, fresh_uuid};
use crate::server::datatypes::{PeerAddress, Retention, Timestamp, Topic, Username};
use crate::server::stores::{CrudStore, LoginStore};
use crate::server::text::{trim, trimmed};

verus! {

/// Why a request about topics was turned down.
#[derive(Clone, Copy, Debug, PartialEq, Eq, Structural)]
pub enum TopicError {
    /// The peer is not logged in.
    NotAuthenticated,
    /// There is no topic under the identifier.
    NotFound,
    /// Another topic has the name.
    AlreadyExists,
}

/// Whether some topic goes by `name`.
pub open spec fn name_taken(topics: Map<u128, Topic>, name: Seq<char>) -> bool {
    exists|k: u128| topics.contains_key(k) && (#[trigger] topics[k]).name@ == name
}

/// No two topics go by the same name.
pub open spec fn names_unique(topics: Map<u128, Topic>) -> bool {
    forall|a: u128, b: u128|
        topics.contains_key(a) && topics.contains_key(b) && a != b ==> (#[trigger] topics[a]).name@
            != (#[trigger] topics[b]).name@
}

/// Why the creation of a topic named `name` is turned down, if it is.
pub open spec fn create_refusal(
    logins: Map<PeerAddress, Username>,
    topics: Map<u128, Topic>,
    peer: PeerAddress,
    name: Seq<char>,
) -> Option<TopicError> {
    if !logins.contains_key(peer) {
        Some(TopicError::NotAuthenticated)
    } else if name_taken(topics, name) {
        Some(TopicError::AlreadyExists)
    } else {
        None
    }
}

/// Why a request for the topic under `uuid` is turned down, if it is.
pub open spec fn lookup_refusal(
    logins: Map<PeerAddress, Username>,
    topics: Map<u128, Topic>,
    peer: PeerAddress,
    uuid: u128,
) -> Option<TopicError> {
    if !logins.contains_key(peer) {
        Some(TopicError::NotAuthenticated)
    } else if !topics.contains_key(uuid) {
        Some(TopicError::NotFound)
    } else {
        None
    }
}

/// Why giving the topic under `uuid` the name `name` is turned down, if it
/// is. A topic may keep the name it has.
pub open spec fn update_refusal(
    logins: Map<PeerAddress, Username>,
    topics: Map<u128, Topic>,
    peer: PeerAddress,
    uuid: u128,
    name: Seq<char>,
) -> Option<TopicError> {
    if !logins.contains_key(peer) {
        Some(TopicError::NotAuthenticated)
    } else if !topics.contains_key(uuid) {
        Some(TopicError::NotFound)
    } else if topics[uuid].name@ != name && name_taken(topics, name) {
        Some(TopicError::AlreadyExists)
    } else {
        None
    }
}

/// Topic names are unique on creation. When a topic named `name` has been
/// created, a second creation under that name is turned down with
/// `AlreadyExists`, whichever logged-in peer asks.
pub proof fn lemma_duplicate_create_refused(
    logins: Map<PeerAddress, Username>,
    topics: Map<u128, Topic>,
    first: PeerAddress,
    second: PeerAddress,
    uuid: u128,
    topic: Topic,
)
    requires
        create_refusal(logins, topics, first, topic.name@) is None,
        logins.contains_key(second),
    ensures
        create_refusal(logins, topics.insert(uuid, topic), second, topic.name@) == Some(
            TopicError::AlreadyExists,
        ),
{
    assert(topics.insert(uuid, topic).contains_key(uuid));
    assert(topics.insert(uuid, topic)[uuid].name@ == topic.name@);
}

/// Topic names are unique on renaming. Giving a topic a name that another
/// topic has is turned down with `AlreadyExists`; giving it the name it
/// has is not.
pub proof fn lemma_update_to_taken_name(
    logins: Map<PeerAddress, Username>,
    topics: Map<u128, Topic>,
    peer: PeerAddress,
    uuid: u128,
    other: u128,
)
    requires
        logins.contains_key(peer),
        topics.contains_key(uuid),
        topics.contains_key(other),
        other != uuid,
        names_unique(topics),
    ensures
        update_refusal(logins, topics, peer, uuid, topics[other].name@) == Some(
            TopicError::AlreadyExists,
        ),
        update_refusal(logins, topics, peer, uuid, topics[uuid].name@) is None,
{
}

/// Putting a topic with a name that no topic has into the store keeps the
/// names unique, whether the identifier is new or not.
pub proof fn lemma_insert_keeps_names_unique(topics: Map<u128, Topic>, uuid: u128, topic: Topic)
    requires
        names_unique(topics),
        !name_taken(topics.remove(uuid), topic.name@),
    ensures
        names_unique(topics.insert(uuid, topic)),
{
    let after = topics.insert(uuid, topic);
    assert forall|a: u128, b: u128|
        after.contains_key(a) && after.contains_key(b) && a != b implies (#[trigger] after[a]).name@
        != (#[trigger] after[b]).name@ by {
        if a == uuid {
            assert(topics.remove(uuid).contains_key(b));
            assert(topics.remove(uuid)[b].name@ != topic.name@);
        } else if b == uuid {
            assert(topics.remove(uuid).contains_key(a));
            assert(topics.remove(uuid)[a].name@ != topic.name@);
        }
    }
}

/// The topic requests of one peer.
pub struct TopicService {
    peer: PeerAddress,
}

impl TopicService {
    /// The peer that this service answers.
    pub closed spec fn peer(&self) -> PeerAddress {
        self.peer
    }

    pub fn new(peer: PeerAddress) -> (service: Self)
        ensures
            service.peer() == peer,
    {
        Self { peer }
    }

    /// Whether some topic in the store goes by `name`.
    pub fn name_in_use(topics: &CrudStore<Topic>, name: &String) -> (taken: bool)
        ensures
            taken == name_taken(topics@, name@),
    {
        let same_name = |topic: &Topic| -> (same: bool)
            ensures
                same == (topic.name@ == name@),
            { topic.name == *name };
        let hits = topics.count(same_name);
        proof {
            let hit = choose|hit: Set<u128>|
                {
                    &&& hit.finite()
                    &&& hit.len() == hits
                    &&& hit.subset_of(topics@.dom())
                    &&& forall|k: u128| #[trigger]
                        topics@.contains_key(k) ==> same_name.ensures(
                            (&topics@[k],),
                            hit.contains(k),
                        )
                };
            if hits > 0 {
                let k = hit.choose();
                assert(hit.contains(k));
                assert(topics@.contains_key(k));
                assert(topics@[k].name@ == name@);
            } else {
                assert(hit =~= Set::<u128>::empty());
                if name_taken(topics@, name@) {
                    let k = choose|k: u128|
                        topics@.contains_key(k) && (#[trigger] topics@[k]).name@ == name@;
                    assert(same_name.ensures((&topics@[k],), hit.contains(k)));
                }
            }
        }
        hits > 0
    }

    /// Creates a topic named `name` under the identifier `uuid`, created at
    /// `now` by the peer, who must be logged in; the name must be free.
    pub fn create_topic_at(
        &self,
        logins: &LoginStore,
        topics: &mut CrudStore<Topic>,
        name: String,
        uuid: u128,
        now: Timestamp,
    ) -> (created: Result<(u128, Topic), TopicError>)
        requires
            logins.wf(),
        ensures
            created.is_err() == create_refusal(logins@, old(topics)@, self.peer(), name@) is Some,
            created matches Err(e) ==> Some(e) == create_refusal(
                logins@,
                old(topics)@,
                self.peer(),
                name@,
            ) && final(topics)@ == old(topics)@,
            created matches Ok(pair) ==> {
                &&& pair.0 == uuid
                &&& pair.1.name == name
                &&& pair.1.creator == logins@[self.peer()]
                &&& pair.1.timestamp == now
                &&& pair.1.retention.is_none()
                &&& final(topics)@ == old(topics)@.insert(uuid, pair.1)
            },
            names_unique(old(topics)@) ==> names_unique(final(topics)@),
    {
        let username = match logins.check_login(&self.peer) {
            Err(_) => {
                return Err(TopicError::NotAuthenticated);
            },
            Ok(username) => username,
        };
        if Self::name_in_use(topics, &name) {
            return Err(TopicError::AlreadyExists);
        }
        let new_topic = Topic { name, creator: username, timestamp: now, retention: None };
        proof {
            if names_unique(topics@) {
                if name_taken(topics@.remove(uuid), new_topic.name@) {
                    let k = choose|k: u128|
                        topics@.remove(uuid).contains_key(k) && (#[trigger] topics@.remove(
                            uuid,
                        )[k]).name@ == new_topic.name@;
                    assert(topics@.contains_key(k) && topics@[k].name@ == new_topic.name@);
                }
                lemma_insert_keeps_names_unique(topics@, uuid, new_topic);
            }
        }
        topics.insert(uuid, new_topic.clone());
        Ok((uuid, new_topic))
    }

    /// Creates a topic named `name` under a fresh identifier, created now.
    /// The identifier and the time come from outside and cannot be
    /// foretold; all else is as `create_topic_at` says.
    pub fn create_topic(&self, logins: &LoginStore, topics: &mut CrudStore<Topic>, name: String) -> (created:
        Result<(u128, Topic), TopicError>)
        requires
            logins.wf(),
        ensures
            created.is_err() == create_refusal(logins@, old(topics)@, self.peer(), name@) is Some,
            created matches Err(e) ==> Some(e) == create_refusal(
                logins@,
                old(topics)@,
                self.peer(),
                name@,
            ) && final(topics)@ == old(topics)@,
            created matches Ok(pair) ==> {
                &&& pair.1.name == name
                &&& pair.1.creator == logins@[self.peer()]
                &&& pair.1.retention.is_none()
                &&& final(topics)@ == old(topics)@.insert(pair.0, pair.1)
            },
            names_unique(old(topics)@) ==> names_unique(final(topics)@),
    {
        let (seconds, nanos) = current_time();
        let uuid = fresh_uuid();
        self.create_topic_at(logins, topics, name, uuid, Timestamp { seconds, nanos })
    }

    /// The topic under `uuid`.
    pub fn get_topic(&self, logins: &LoginStore, topics: &CrudStore<Topic>, uuid: u128) -> (found:
        Result<Topic, TopicError>)
        requires
            logins.wf(),
        ensures
            found.is_err() == lookup_refusal(logins@, topics@, self.peer(), uuid) is Some,
            found matches Err(e) ==> Some(e) == lookup_refusal(logins@, topics@, self.peer(), uuid),
            found matches Ok(topic) ==> topic == topics@[uuid],
    {
        if logins.check_login(&self.peer).is_err() {
            return Err(TopicError::NotAuthenticated);
        }
        match topics.get(uuid) {
            None => Err(TopicError::NotFound),
            Some(topic) => Ok(topic),
        }
    }

    /// Every topic with its identifier, each once, in no particular order.
    pub fn get_all_topics(&self, logins: &LoginStore, topics: &CrudStore<Topic>) -> (all: Result<
        Vec<(u128, Topic)>,
        TopicError,
    >)
        requires
            logins.wf(),
        ensures
            all.is_ok() == logins@.contains_key(self.peer()),
            all matches Err(e) ==> e == TopicError::NotAuthenticated,
            all matches Ok(list) ==> {
                &&& list@.len() == topics@.dom().len()
                &&& forall|i: int|
                    0 <= i < list@.len() ==> topics@.contains_key((#[trigger] list@[i]).0)
                        && topics@[list@[i].0] == list@[i].1
                &&& forall|i: int, j: int|
                    0 <= i < j < list@.len() ==> (#[trigger] list@[i]).0 != (#[trigger] list@[j]).0
                &&& forall|k: u128|
                    topics@.contains_key(k) ==> exists|i: int|
                        0 <= i < list@.len() && (#[trigger] list@[i]).0 == k
            },
    {
        if logins.check_login(&self.peer).is_err() {
            return Err(TopicError::NotAuthenticated);
        }
        Ok(topics.get_all())
    }

    /// Gives the topic under `uuid` the name `name`, trimmed, and the
    /// retention `retention`. The name must be free or the topic's own.
    pub fn update_topic(
        &self,
        logins: &LoginStore,
        topics: &mut CrudStore<Topic>,
        uuid: u128,
        name: &str,
        retention: Retention,
    ) -> (updated: Result<Topic, TopicError>)
        requires
            logins.wf(),
        ensures
            updated.is_err() == update_refusal(
                logins@,
                old(topics)@,
                self.peer(),
                uuid,
                trimmed(name@),
            ) is Some,
            updated matches Err(e) ==> Some(e) == update_refusal(
                logins@,
                old(topics)@,
                self.peer(),
                uuid,
                trimmed(name@),
            ) && final(topics)@ == old(topics)@,
            updated matches Ok(topic) ==> {
                &&& topic.name@ == trimmed(name@)
                &&& topic.retention == retention
                &&& topic.creator == old(topics)@[uuid].creator
                &&& topic.timestamp == old(topics)@[uuid].timestamp
                &&& final(topics)@ == old(topics)@.insert(uuid, topic)
            },
            names_unique(old(topics)@) ==> names_unique(final(topics)@),
    {
        if logins.check_login(&self.peer).is_err() {
            return Err(TopicError::NotAuthenticated);
        }
        let new_name = trim(name);
        match topics.get(uuid) {
            None => Err(TopicError::NotFound),
            Some(current_topic) => {
                if current_topic.name != new_name && Self::name_in_use(topics, &new_name) {
                    Err(TopicError::AlreadyExists)
                } else {
                    let updated = Topic {
                        name: new_name,
                        creator: current_topic.creator,
                        timestamp: current_topic.timestamp,
                        retention,
                    };
                    proof {
                        if names_unique(topics@) {
                            if name_taken(topics@.remove(uuid), updated.name@) {
                                let k = choose|k: u128|
                                    topics@.remove(uuid).contains_key(k) && (
                                    #[trigger] topics@.remove(uuid)[k]).name@ == updated.name@;
                                assert(topics@.contains_key(k) && topics@[k].name@
                                    == updated.name@);
                            }
                            lemma_insert_keeps_names_unique(topics@, uuid, updated);
                        }
                    }
                    topics.update(uuid, updated.clone());
                    Ok(updated)
                }
            },
        }
    }

    /// Removes the topic under `uuid`.
    pub fn delete_topic(&self, logins: &LoginStore, topics: &mut CrudStore<Topic>, uuid: u128) -> (deleted:
        Result<(), TopicError>)
        requires
            logins.wf(),
        ensures
            deleted.is_err() == lookup_refusal(logins@, old(topics)@, self.peer(), uuid) is Some,
            deleted matches Err(e) ==> Some(e) == lookup_refusal(
                logins@,
                old(topics)@,
                self.peer(),
                uuid,
            ) && final(topics)@ == old(topics)@,
            deleted.is_ok() ==> final(topics)@ == old(topics)@.remove(uuid),
            names_unique(old(topics)@) ==> names_unique(final(topics)@),
    {
        if logins.check_login(&self.peer).is_err() {
            return Err(TopicError::NotAuthenticated);
        }
        if !topics.contains(uuid) {
            return Err(TopicError::NotFound);
        }
        topics.remove(uuid);
        Ok(())
    }
}

} // verus!
