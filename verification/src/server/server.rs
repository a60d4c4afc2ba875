use vstd::prelude::*;

use crate::concurrent_list::list::{lemma_live_values_of_values, DEFAULT_CHUNK_SIZE};
use crate::concurrent_list::{live_values, ConcurrentList};
use crate::server::datatypes::{Message, Topic};
use crate::server::services::message::of_topic;
use crate::server::stores::{CrudStore, LoginStore};

verus! {

/// What the broker keeps: the topics, who is logged in, and the log of
/// messages.
pub struct Server {
    pub topics: CrudStore<Topic>,
    pub logins: LoginStore,
    pub messages: ConcurrentList<Message>,
}

/// What is written down of a broker at shutdown: its topics, each with its
/// identifier, and its messages, oldest first. Logins, subscriptions and
/// cursors are not kept.
pub struct Snapshot {
    pub topics: Vec<(u128, Topic)>,
    pub messages: Vec<Message>,
}

/// The topics that a list of topics with identifiers amounts to; a later
/// entry for an identifier overrides an earlier one.
pub open spec fn topics_of(list: Seq<(u128, Topic)>) -> Map<u128, Topic>
    decreases list.len(),
{
    if list.len() == 0 {
        Map::empty()
    } else {
        topics_of(list.drop_last()).insert(list.last().0, list.last().1)
    }
}

/// `list` names every topic of `topics` once, with its identifier.
pub open spec fn enumerates(list: Seq<(u128, Topic)>, topics: Map<u128, Topic>) -> bool {
    &&& forall|i: int|
        0 <= i < list.len() ==> topics.contains_key((#[trigger] list[i]).0) && topics[list[i].0]
            == list[i].1
    &&& forall|i: int, j: int|
        0 <= i < j < list.len() ==> (#[trigger] list[i]).0 != (#[trigger] list[j]).0
    &&& forall|k: u128|
        topics.contains_key(k) ==> exists|i: int| 0 <= i < list.len() && (#[trigger] list[i]).0 == k
}

/// A list that names every topic once amounts to those topics.
pub proof fn lemma_topics_of_enumeration(list: Seq<(u128, Topic)>, topics: Map<u128, Topic>)
    requires
        enumerates(list, topics),
    ensures
        topics_of(list) == topics,
    decreases list.len(),
{
    if list.len() == 0 {
        assert(topics =~= Map::<u128, Topic>::empty()) by {
            assert forall|k: u128| !topics.contains_key(k) by {
                if topics.contains_key(k) {
                    let i = choose|i: int| 0 <= i < list.len() && (#[trigger] list[i]).0 == k;
                }
            }
        }
    } else {
        let last = list.last();
        let rest = list.drop_last();
        let fewer = topics.remove(last.0);
        assert(enumerates(rest, fewer)) by {
            assert forall|i: int| 0 <= i < rest.len() implies fewer.contains_key(
                (#[trigger] rest[i]).0,
            ) && fewer[rest[i].0] == rest[i].1 by {
                assert(rest[i] == list[i]);
                assert(list[i].0 != list[list.len() - 1].0);
            }
            assert forall|i: int, j: int| 0 <= i < j < rest.len() implies (#[trigger] rest[i]).0
                != (#[trigger] rest[j]).0 by {
                assert(rest[i] == list[i]);
                assert(rest[j] == list[j]);
            }
            assert forall|k: u128| fewer.contains_key(k) implies exists|i: int|
                0 <= i < rest.len() && (#[trigger] rest[i]).0 == k by {
                let i = choose|i: int| 0 <= i < list.len() && (#[trigger] list[i]).0 == k;
                assert(rest[i] == list[i]);
            }
        }
        lemma_topics_of_enumeration(rest, fewer);
        assert(topics.contains_key(list[list.len() - 1].0));
        assert(fewer.insert(last.0, last.1) =~= topics);
    }
}

/// A snapshot brings everything back. Let a snapshot name every topic of a
/// broker once and hold its live messages in order. Then the broker made
/// from the snapshot has the same topics under the same identifiers, and
/// for every topic the same messages in the same order.
pub proof fn lemma_snapshot_round_trip(
    topics: Map<u128, Topic>,
    log: Seq<Option<Message>>,
    kept_topics: Seq<(u128, Topic)>,
    kept_messages: Seq<Message>,
    topic_uuid: u128,
)
    requires
        enumerates(kept_topics, topics),
        kept_messages == live_values(log),
    ensures
        topics_of(kept_topics) == topics,
        of_topic(live_values(kept_messages.map_values(|m: Message| Some(m))), topic_uuid)
            == of_topic(live_values(log), topic_uuid),
{
    lemma_topics_of_enumeration(kept_topics, topics);
    lemma_live_values_of_values(kept_messages);
}

impl Default for Server {
    fn default() -> (server: Self)
        ensures
            server.wf(),
            server.topics@ == Map::<u128, Topic>::empty(),
            server.messages@ == Seq::<Option<Message>>::empty(),
            server.logins@ == Map::<crate::server::datatypes::PeerAddress, String>::empty(),
    {
        Self::new()
    }
}

impl Server {
    /// The log and the login store are in order.
    pub open spec fn wf(&self) -> bool {
        self.messages.wf() && self.logins.wf()
    }

    /// A broker with no topics, no messages and no one logged in.
    pub fn new() -> (server: Self)
        ensures
            server.wf(),
            server.topics@ == Map::<u128, Topic>::empty(),
            server.messages@ == Seq::<Option<Message>>::empty(),
            server.logins@ == Map::<crate::server::datatypes::PeerAddress, String>::empty(),
    {
        Self::from_messages(CrudStore::new(), ConcurrentList::new(DEFAULT_CHUNK_SIZE))
    }

    /// A broker with the given topics and messages and no one logged in.
    pub fn from_messages(topics: CrudStore<Topic>, messages: ConcurrentList<Message>) -> (server:
        Self)
        requires
            messages.wf(),
        ensures
            server.wf(),
            server.topics@ == topics@,
            server.messages@ == messages@,
            server.messages.nodes() == messages.nodes(),
            server.logins@ == Map::<crate::server::datatypes::PeerAddress, String>::empty(),
    {
        Self { topics, logins: LoginStore::new(), messages }
    }

    /// What is to be written down of the broker: every topic once with its
    /// identifier, and the live messages, oldest first.
    pub fn serialize(&self) -> (snapshot: Snapshot)
        requires
            self.wf(),
        ensures
            enumerates(snapshot.topics@, self.topics@),
            snapshot.messages@ == live_values(self.messages@),
    {
        let topics = self.topics.get_all();
        let values = self.messages.values();
        let ghost live = live_values(self.messages@);
        let mut messages: Vec<Message> = Vec::new();
        let mut i: usize = 0;
        while i < values.len()
            invariant
                values@.map_values(|v: &Message| *v) == live,
                i <= values@.len(),
                messages@ == live.take(i as int),
            decreases values@.len() - i,
        {
            proof {
                assert(live.take(i + 1) =~= live.take(i as int).push(live[i as int]));
                assert(values@.map_values(|v: &Message| *v)[i as int] == *values@[i as int]);
            }
            messages.push(values[i].clone());
            i = i + 1;
        }
        proof {
            assert(live.take(values@.len() as int) =~= live);
        }
        Snapshot { topics, messages }
    }

    /// The broker that a snapshot describes: its topics under their
    /// identifiers, its messages in a fresh log, and no one logged in.
    pub fn deserialize(snapshot: Snapshot) -> (server: Self)
        requires
            snapshot.messages@.len() + 2 * DEFAULT_CHUNK_SIZE <= usize::MAX,
        ensures
            server.wf(),
            server.topics@ == topics_of(snapshot.topics@),
            server.messages@ == snapshot.messages@.map_values(|m: Message| Some(m)),
            server.logins@ == Map::<crate::server::datatypes::PeerAddress, String>::empty(),
    {
        let Snapshot { topics: kept_topics, messages: kept_messages } = snapshot;
        let mut topics: CrudStore<Topic> = CrudStore::new();
        proof {
            assert(kept_topics@.take(0) =~= Seq::<(u128, Topic)>::empty());
        }
        for pair in it: kept_topics
            invariant
                it.seq() == kept_topics@,
                topics@ == topics_of(kept_topics@.take(it.index() as int)),
        {
            proof {
                let k = it.index() as int;
                assert(kept_topics@.take(k + 1).drop_last() =~= kept_topics@.take(k));
            }
            let (uuid, topic) = pair;
            topics.insert(uuid, topic);
        }
        proof {
            assert(kept_topics@.take(kept_topics@.len() as int) =~= kept_topics@);
        }
        let messages = ConcurrentList::from_vec(kept_messages);
        Self::from_messages(topics, messages)
    }
}

} // verus!
