use vstd::prelude::*;

use crate::concurrent_list::chunk::has_room;
use crate::concurrent_list::{live_values, ConcurrentList, ConcurrentListRef, CursorView};
use crate::outside::{current_time, fresh_uuid};
use crate::server::datatypes::{Message, PeerAddress, Timestamp, Topic, Username};
use crate::server::stores::{CrudStore, LoginStore};
use crate::server::text::{clean, cleaned};

verus! {

/// Why a request about messages was turned down.
#[derive(Clone, Copy, Debug, PartialEq, Eq, Structural)]
pub enum MessageError {
    /// The peer is not logged in.
    NotAuthenticated,
    /// There is no topic under the identifier.
    EntityDoesNotExist,
    /// Nothing is left of the text once it is cleaned.
    InvalidContent,
    /// The operation is not there yet.
    Unimplemented,
}

/// The failure of a call on a history iterator that was stopped.
#[derive(Clone, Copy, Debug, PartialEq, Eq, Structural)]
pub struct IteratorStopped;

/// One subscription of a service: its number and the topic it is for.
#[derive(Clone, Copy, Debug, PartialEq, Eq, Structural)]
pub struct Subscriber {
    pub id: u64,
    pub topic_uuid: u128,
}

/// Why posting `content` to the topic under `topic_uuid` is turned down,
/// if it is. The text is looked at before the topic.
pub open spec fn post_refusal(
    logins: Map<PeerAddress, Username>,
    topics: Map<u128, Topic>,
    peer: PeerAddress,
    topic_uuid: u128,
    content: Seq<char>,
) -> Option<MessageError> {
    if !logins.contains_key(peer) {
        Some(MessageError::NotAuthenticated)
    } else if cleaned(content).len() == 0 {
        Some(MessageError::InvalidContent)
    } else if !topics.contains_key(topic_uuid) {
        Some(MessageError::EntityDoesNotExist)
    } else {
        None
    }
}

/// Why a request about the messages of the topic under `topic_uuid` is
/// turned down, if it is.
pub open spec fn topic_refusal(
    logins: Map<PeerAddress, Username>,
    topics: Map<u128, Topic>,
    peer: PeerAddress,
    topic_uuid: u128,
) -> Option<MessageError> {
    if !logins.contains_key(peer) {
        Some(MessageError::NotAuthenticated)
    } else if !topics.contains_key(topic_uuid) {
        Some(MessageError::EntityDoesNotExist)
    } else {
        None
    }
}

/// The messages of one topic among `messages`, in the same order.
pub open spec fn of_topic(messages: Seq<Message>, topic_uuid: u128) -> Seq<Message> {
    messages.filter(|m: Message| m.topic_uuid == topic_uuid)
}

/// The subscriptions that are left when those for `topic_uuid` are taken out.
pub open spec fn without_topic(subscribers: Seq<Subscriber>, topic_uuid: u128) -> Seq<Subscriber> {
    subscribers.filter(|s: Subscriber| s.topic_uuid != topic_uuid)
}

/// Whether the subscription numbered `id` is among `subscribers`.
pub open spec fn subscribed(subscribers: Seq<Subscriber>, id: u64) -> bool {
    exists|i: int| 0 <= i < subscribers.len() && (#[trigger] subscribers[i]).id == id
}

/// Where a scan for messages of `topic_uuid` that starts at index `from`
/// stops: at the first slot that is a tombstone or holds a message of the
/// topic, or where the log ends.
pub open spec fn scan_stop(log: Seq<Option<Message>>, from: int, topic_uuid: u128) -> int
    decreases log.len() - from,
{
    if from < 0 || from >= log.len() {
        from
    } else {
        match log[from] {
            None => from,
            Some(m) => if m.topic_uuid == topic_uuid {
                from
            } else {
                scan_stop(log, from + 1, topic_uuid)
            },
        }
    }
}

/// Up to `count` messages of `topic_uuid`, walking back from index `from`
/// to the start of the log; the latest comes first.
pub open spec fn history(log: Seq<Option<Message>>, from: int, topic_uuid: u128, count: nat) -> Seq<
    Message,
>
    decreases from + 1,
{
    if from < 0 || from >= log.len() || count == 0 {
        Seq::empty()
    } else {
        match log[from] {
            Some(m) if m.topic_uuid == topic_uuid => seq![m] + history(
                log,
                from - 1,
                topic_uuid,
                (count - 1) as nat,
            ),
            _ => history(log, from - 1, topic_uuid, count),
        }
    }
}

/// The index at which the walk of `history` would go on.
pub open spec fn history_rest(log: Seq<Option<Message>>, from: int, topic_uuid: u128, count: nat) -> int
    decreases from + 1,
{
    if from < 0 || from >= log.len() || count == 0 {
        from
    } else {
        match log[from] {
            Some(m) if m.topic_uuid == topic_uuid => history_rest(
                log,
                from - 1,
                topic_uuid,
                (count - 1) as nat,
            ),
            _ => history_rest(log, from - 1, topic_uuid, count),
        }
    }
}

/// The message requests of one peer, and the subscriptions it holds.
pub struct MessageService {
    peer: PeerAddress,
    messages_reader: ConcurrentListRef,
    messages_writer: ConcurrentListRef,
    subscribers: Vec<Subscriber>,
    issued: u64,
}

/// What a new subscription hands out: the loop that delivers what is
/// posted from now on, and the iterator over what was posted before.
pub struct Subscription {
    pub delivery: DeliveryLoop,
    pub history: ReverseMessageIterator,
}

impl MessageService {
    /// The peer that this service answers.
    pub closed spec fn peer(&self) -> PeerAddress {
        self.peer
    }

    /// The subscriptions that this service holds, oldest first.
    pub closed spec fn subscribers(&self) -> Seq<Subscriber> {
        self.subscribers@
    }

    /// How many subscriptions this service has handed out so far.
    pub closed spec fn issued(&self) -> nat {
        self.issued as nat
    }

    /// Where the cursor stands that the service reads the log with.
    pub closed spec fn reader(&self) -> CursorView {
        self.messages_reader@
    }

    /// Where the cursor stands that the service appends to the log with.
    pub closed spec fn writer(&self) -> CursorView {
        self.messages_writer@
    }

    /// The service's cursors point into the log with chunks `nodes`, and
    /// every subscription was numbered below the count of those handed out.
    pub closed spec fn wf(&self, messages: &ConcurrentList<Message>) -> bool {
        &&& self.messages_reader@.wf(messages.nodes())
        &&& self.messages_writer@.wf(messages.nodes())
        &&& forall|i: int|
            0 <= i < self.subscribers@.len() ==> (#[trigger] self.subscribers@[i]).id < self.issued
    }

    /// A service stays in order when its log grows or has slots tombstoned.
    pub proof fn lemma_wf_stable(
        &self,
        before: &ConcurrentList<Message>,
        after: &ConcurrentList<Message>,
    )
        requires
            self.wf(before),
            before.wf(),
            after.wf(),
            before.chunk_capacity() == after.chunk_capacity(),
            before.nodes().len() <= after.nodes().len(),
            before@.len() <= after@.len(),
        ensures
            self.wf(after),
    {
        crate::concurrent_list::chunk_ref::lemma_cursor_stays_valid(
            before.nodes(),
            after.nodes(),
            self.messages_reader@,
        );
        crate::concurrent_list::chunk_ref::lemma_cursor_stays_valid(
            before.nodes(),
            after.nodes(),
            self.messages_writer@,
        );
    }

    /// A service for `peer` on the log `messages`, with no subscriptions.
    pub fn new(peer: PeerAddress, messages: &ConcurrentList<Message>) -> (service: Self)
        requires
            messages.wf(),
        ensures
            service.peer() == peer,
            service.wf(messages),
            service.subscribers().len() == 0,
            service.issued() == 0,
            service.reader() == CursorView::at_node(messages.nodes(), 0, true),
            service.writer() == CursorView::at_node(messages.nodes(), 0, true),
    {
        proof {
            assert(crate::concurrent_list::chunk::node_wf(messages.nodes(), 0));
        }
        let messages_handle = messages.reference();
        Self {
            peer,
            messages_reader: messages_handle,
            messages_writer: messages_handle,
            subscribers: Vec::new(),
            issued: 0,
        }
    }

    /// Posts a message with the text `content` to the topic under
    /// `topic_uuid`, under the identifier `uuid` and the time `now`. The
    /// text is trimmed and cleaned; it must not come out empty. The peer
    /// must be logged in and the topic must exist.
    pub fn post_message_at(
        &mut self,
        logins: &LoginStore,
        topics: &CrudStore<Topic>,
        messages: &mut ConcurrentList<Message>,
        topic_uuid: u128,
        content: &str,
        key: Option<String>,
        uuid: u128,
        now: Timestamp,
    ) -> (posted: Result<Message, MessageError>)
        requires
            logins.wf(),
            old(messages).wf(),
            old(self).wf(old(messages)),
            has_room(old(messages).nodes()),
        ensures
            final(messages).wf(),
            final(self).wf(final(messages)),
            final(self).peer() == old(self).peer(),
            final(self).subscribers() == old(self).subscribers(),
            final(self).issued() == old(self).issued(),
            final(self).reader() == old(self).reader(),
            final(messages).chunk_capacity() == old(messages).chunk_capacity(),
            final(messages).nodes().len() >= old(messages).nodes().len(),
            posted.is_err() ==> final(self).writer() == old(self).writer(),
            posted.is_ok() ==> final(self).writer() == (if old(self).writer().chunk == old(messages).nodes().len() - 1 {
                old(self).writer()
            } else {
                CursorView::at_node(
                    old(messages).nodes(),
                    (old(messages).nodes().len() - 1) as nat,
                    old(self).writer().item_owed,
                )
            }),
            posted.is_err() == post_refusal(
                logins@,
                topics@,
                old(self).peer(),
                topic_uuid,
                content@,
            ) is Some,
            posted matches Err(e) ==> Some(e) == post_refusal(
                logins@,
                topics@,
                old(self).peer(),
                topic_uuid,
                content@,
            ) && final(messages)@ == old(messages)@,
            posted matches Ok(m) ==> {
                &&& m.uuid == uuid
                &&& m.topic_uuid == topic_uuid
                &&& m.author_name == logins@[old(self).peer()]
                &&& m.content@ == cleaned(content@)
                &&& m.timestamp == now
                &&& m.key == key
                &&& final(messages)@ == old(messages)@.push(Some(m))
            },
    {
        let username = match logins.check_login(&self.peer) {
            Err(_) => {
                return Err(MessageError::NotAuthenticated);
            },
            Ok(username) => username,
        };
        let content = clean(content);
        if content.as_str().unicode_len() == 0 {
            return Err(MessageError::InvalidContent);
        }
        if !topics.contains(topic_uuid) {
            return Err(MessageError::EntityDoesNotExist);
        }
        let message = Message {
            uuid,
            topic_uuid,
            author_name: username,
            content,
            timestamp: now,
            key,
        };
        let ghost before = messages.nodes();
        self.messages_writer.push(messages, message.clone());
        proof {
            crate::concurrent_list::chunk_ref::lemma_cursor_stays_valid(
                before,
                messages.nodes(),
                self.messages_reader@,
            );
        }
        Ok(message)
    }

    /// Posts a message under a fresh identifier and the time it is now,
    /// neither of which can be foretold; all else is as `post_message_at`
    /// says.
    pub fn post_message(
        &mut self,
        logins: &LoginStore,
        topics: &CrudStore<Topic>,
        messages: &mut ConcurrentList<Message>,
        topic_uuid: u128,
        content: &str,
        key: Option<String>,
    ) -> (posted: Result<Message, MessageError>)
        requires
            logins.wf(),
            old(messages).wf(),
            old(self).wf(old(messages)),
            has_room(old(messages).nodes()),
        ensures
            final(messages).wf(),
            final(self).wf(final(messages)),
            final(self).peer() == old(self).peer(),
            final(self).subscribers() == old(self).subscribers(),
            final(self).issued() == old(self).issued(),
            final(self).reader() == old(self).reader(),
            final(messages).chunk_capacity() == old(messages).chunk_capacity(),
            final(messages).nodes().len() >= old(messages).nodes().len(),
            posted.is_err() ==> final(self).writer() == old(self).writer(),
            posted.is_ok() ==> final(self).writer() == (if old(self).writer().chunk == old(messages).nodes().len() - 1 {
                old(self).writer()
            } else {
                CursorView::at_node(
                    old(messages).nodes(),
                    (old(messages).nodes().len() - 1) as nat,
                    old(self).writer().item_owed,
                )
            }),
            posted.is_err() == post_refusal(
                logins@,
                topics@,
                old(self).peer(),
                topic_uuid,
                content@,
            ) is Some,
            posted matches Err(e) ==> Some(e) == post_refusal(
                logins@,
                topics@,
                old(self).peer(),
                topic_uuid,
                content@,
            ) && final(messages)@ == old(messages)@,
            posted matches Ok(m) ==> {
                &&& m.topic_uuid == topic_uuid
                &&& m.author_name == logins@[old(self).peer()]
                &&& m.content@ == cleaned(content@)
                &&& m.key == key
                &&& final(messages)@ == old(messages)@.push(Some(m))
            },
    {
        let (seconds, nanos) = current_time();
        let uuid = fresh_uuid();
        self.post_message_at(
            logins,
            topics,
            messages,
            topic_uuid,
            content,
            key,
            uuid,
            Timestamp { seconds, nanos },
        )
    }

    /// Deleting a message is not there yet: a peer that is logged in is
    /// told so, any other that it is not logged in.
    pub fn delete_message(&mut self, logins: &LoginStore, message_uuid: u128) -> (deleted: Result<
        (),
        MessageError,
    >)
        requires
            logins.wf(),
        ensures
            *final(self) == *old(self),
            deleted == Err::<(), MessageError>(
                if logins@.contains_key(old(self).peer()) {
                    MessageError::Unimplemented
                } else {
                    MessageError::NotAuthenticated
                },
            ),
    {
        if logins.check_login(&self.peer).is_err() {
            return Err(MessageError::NotAuthenticated);
        }
        Err(MessageError::Unimplemented)
    }

    /// The messages of the topic under `topic_uuid` that the log holds,
    /// oldest first; tombstones are left out. The service's reading cursor
    /// is rewound to the start of the log.
    pub fn get_messages_sync(
        &mut self,
        logins: &LoginStore,
        topics: &CrudStore<Topic>,
        messages: &ConcurrentList<Message>,
        topic_uuid: u128,
    ) -> (found: Result<Vec<Message>, MessageError>)
        requires
            logins.wf(),
            messages.wf(),
            old(self).wf(messages),
        ensures
            final(self).wf(messages),
            final(self).peer() == old(self).peer(),
            final(self).subscribers() == old(self).subscribers(),
            final(self).issued() == old(self).issued(),
            final(self).writer() == old(self).writer(),
            found.is_err() ==> final(self).reader() == old(self).reader(),
            found.is_ok() ==> final(self).reader() == CursorView::at_node(messages.nodes(), 0, true),
            found.is_err() == topic_refusal(logins@, topics@, old(self).peer(), topic_uuid) is Some,
            found matches Err(e) ==> Some(e) == topic_refusal(
                logins@,
                topics@,
                old(self).peer(),
                topic_uuid,
            ),
            found matches Ok(list) ==> list@ == of_topic(live_values(messages@), topic_uuid),
    {
        if logins.check_login(&self.peer).is_err() {
            return Err(MessageError::NotAuthenticated);
        }
        if !topics.contains(topic_uuid) {
            return Err(MessageError::EntityDoesNotExist);
        }
        self.messages_reader.drain_backwards(messages);
        let all = messages.values();
        let ghost live = live_values(messages@);
        let ghost wanted = |m: Message| m.topic_uuid == topic_uuid;
        let mut list: Vec<Message> = Vec::new();
        let mut i: usize = 0;
        proof {
            assert(live.take(0) =~= Seq::<Message>::empty());
        }
        while i < all.len()
            invariant
                wanted == |m: Message| m.topic_uuid == topic_uuid,
                all@.map_values(|v: &Message| *v) == live,
                i <= all@.len(),
                list@ == live.take(i as int).filter(wanted),
            decreases all@.len() - i,
        {
            proof {
                reveal(Seq::filter);
                assert(live.take(i + 1).drop_last() =~= live.take(i as int));
                assert(all@.map_values(|v: &Message| *v)[i as int] == *all@[i as int]);
            }
            if all[i].topic_uuid == topic_uuid {
                list.push(all[i].clone());
            }
            i = i + 1;
        }
        proof {
            assert(live.take(all@.len() as int) =~= live);
        }
        Ok(list)
    }

    /// Subscribes to the topic under `topic_uuid`. The service holds the
    /// new subscription under the next free number; what is handed out is
    /// a delivery loop that starts at the end of the log as it is now, and
    /// an iterator that walks back from there.
    pub fn subscribe(
        &mut self,
        logins: &LoginStore,
        topics: &CrudStore<Topic>,
        messages: &ConcurrentList<Message>,
        topic_uuid: u128,
    ) -> (subscription: Result<Subscription, MessageError>)
        requires
            logins.wf(),
            messages.wf(),
            old(self).wf(messages),
            old(self).issued() < u64::MAX,
        ensures
            final(self).wf(messages),
            final(self).peer() == old(self).peer(),
            final(self).reader() == old(self).reader(),
            final(self).writer() == old(self).writer(),
            subscription.is_err() == topic_refusal(
                logins@,
                topics@,
                old(self).peer(),
                topic_uuid,
            ) is Some,
            subscription matches Err(e) ==> Some(e) == topic_refusal(
                logins@,
                topics@,
                old(self).peer(),
                topic_uuid,
            ) && final(self).subscribers() == old(self).subscribers() && final(self).issued()
                == old(self).issued(),
            subscription matches Ok(s) ==> {
                &&& final(self).issued() == old(self).issued() + 1
                &&& final(self).subscribers() == old(self).subscribers().push(
                    Subscriber { id: old(self).issued() as u64, topic_uuid },
                )
                &&& s.delivery.subscriber() == old(self).issued()
                &&& s.delivery.topic_uuid() == topic_uuid
                &&& !s.delivery.stopped()
                &&& s.delivery.cursor().wf(messages.nodes())
                &&& s.delivery.cursor().global_index == messages@.len()
                &&& s.delivery.cursor().item_owed
                &&& s.history.topic_uuid() == topic_uuid
                &&& s.history.cursor() == Some(s.delivery.cursor().owing(false))
            },
    {
        if logins.check_login(&self.peer).is_err() {
            return Err(MessageError::NotAuthenticated);
        }
        if !topics.contains(topic_uuid) {
            return Err(MessageError::EntityDoesNotExist);
        }
        let mut reader_handle = self.messages_reader;
        reader_handle.drain_forward(messages);
        let id = self.issued;
        self.subscribers.push(Subscriber { id, topic_uuid });
        self.issued = self.issued + 1;
        Ok(
            Subscription {
                delivery: DeliveryLoop::new(reader_handle, id, topic_uuid),
                history: ReverseMessageIterator::new(reader_handle, topic_uuid),
            },
        )
    }

    /// Drops every subscription that this service holds on the topic under
    /// `topic_uuid`, whatever receiver it was made for.
    pub fn unsubscribe(&mut self, logins: &LoginStore, topic_uuid: u128) -> (done: Result<
        (),
        MessageError,
    >)
        requires
            logins.wf(),
        ensures
            final(self).peer() == old(self).peer(),
            final(self).issued() == old(self).issued(),
            final(self).reader() == old(self).reader(),
            final(self).writer() == old(self).writer(),
            done.is_ok() == logins@.contains_key(old(self).peer()),
            done matches Err(e) ==> e == MessageError::NotAuthenticated && final(self).subscribers()
                == old(self).subscribers(),
            done.is_ok() ==> final(self).subscribers() == without_topic(
                old(self).subscribers(),
                topic_uuid,
            ),
            forall|messages: &ConcurrentList<Message>|
                old(self).wf(messages) ==> #[trigger] final(self).wf(messages),
    {
        if logins.check_login(&self.peer).is_err() {
            return Err(MessageError::NotAuthenticated);
        }
        let ghost before = self.subscribers@;
        let ghost others = |s: Subscriber| s.topic_uuid != topic_uuid;
        let mut kept: Vec<Subscriber> = Vec::new();
        let mut i: usize = 0;
        proof {
            assert(before.take(0) =~= Seq::<Subscriber>::empty());
        }
        while i < self.subscribers.len()
            invariant
                others == |s: Subscriber| s.topic_uuid != topic_uuid,
                self.subscribers@ == before,
                self.issued == old(self).issued,
                self.peer == old(self).peer,
                self.messages_reader == old(self).messages_reader,
                self.messages_writer == old(self).messages_writer,
                i <= before.len(),
                kept@ == before.take(i as int).filter(others),
                forall|k: int| 0 <= k < kept@.len() ==> before.contains(#[trigger] kept@[k]),
            decreases before.len() - i,
        {
            proof {
                reveal(Seq::filter);
                assert(before.take(i + 1).drop_last() =~= before.take(i as int));
            }
            if self.subscribers[i].topic_uuid != topic_uuid {
                kept.push(self.subscribers[i]);
            }
            i = i + 1;
        }
        proof {
            assert(before.take(before.len() as int) =~= before);
            assert forall|messages: &ConcurrentList<Message>| old(self).wf(messages) implies forall|
                k: int,
            |
                0 <= k < kept@.len() ==> (#[trigger] kept@[k]).id < self.issued by {
                assert forall|k: int| 0 <= k < kept@.len() implies (#[trigger] kept@[k]).id
                    < self.issued by {
                    assert(before.contains(kept@[k]));
                    let j = choose|j: int| 0 <= j < before.len() && before[j] == kept@[k];
                    assert(before[j].id < self.issued);
                }
            }
        }
        self.subscribers = kept;
        Ok(())
    }

    /// How many subscriptions this service has handed out so far.
    pub fn subscriptions_issued(&self) -> (issued: u64)
        ensures
            issued == self.issued(),
    {
        self.issued
    }

    /// Whether this service still holds the subscription numbered `id`.
    pub fn is_subscribed(&self, id: u64) -> (held: bool)
        ensures
            held == subscribed(self.subscribers(), id),
    {
        let mut i: usize = 0;
        while i < self.subscribers.len()
            invariant
                i <= self.subscribers@.len(),
                forall|k: int| 0 <= k < i ==> (#[trigger] self.subscribers@[k]).id != id,
            decreases self.subscribers@.len() - i,
        {
            if self.subscribers[i].id == id {
                return true;
            }
            i = i + 1;
        }
        false
    }
}

/// What wakes a delivery loop.
#[derive(Clone, Copy, Debug, PartialEq, Eq, Structural)]
pub enum DeliveryEvent {
    /// The loop was started, or its idle time is over.
    Wakeup,
    /// The receiver took the message that was handed out last.
    Delivered,
    /// The receiver could not be reached.
    DeliveryFailed,
}

/// What a delivery loop wants done next.
#[derive(Debug)]
pub enum DeliveryAction {
    /// Hand this message to the receiver, then come back with how it went.
    Deliver(Message),
    /// Nothing to deliver for now: wait a little, then come back.
    Idle,
    /// The loop is over for good.
    Exit,
}

/// How long a delivery loop waits when it has nothing to deliver, in
/// milliseconds.
pub const IDLE_MILLIS: u64 = 10;

/// The loop that hands one subscriber the messages of its topic, in the
/// order of the log, as they are appended. It decides; whoever drives it
/// does the sending and the waiting.
pub struct DeliveryLoop {
    messages_reader: ConcurrentListRef,
    subscriber: u64,
    topic_uuid: u128,
    stopped: bool,
}

impl DeliveryLoop {
    /// Where the loop stands in the log.
    pub closed spec fn cursor(&self) -> crate::concurrent_list::CursorView {
        self.messages_reader@
    }

    /// The number of the subscription that the loop serves.
    pub closed spec fn subscriber(&self) -> u64 {
        self.subscriber
    }

    /// The topic that the loop delivers.
    pub closed spec fn topic_uuid(&self) -> u128 {
        self.topic_uuid
    }

    /// Whether the loop is over.
    pub closed spec fn stopped(&self) -> bool {
        self.stopped
    }

    /// A loop for the subscription numbered `subscriber` to `topic_uuid`,
    /// which reads on from `messages_reader`.
    pub fn new(messages_reader: ConcurrentListRef, subscriber: u64, topic_uuid: u128) -> (delivery:
        Self)
        ensures
            delivery.cursor() == messages_reader@,
            delivery.subscriber() == subscriber,
            delivery.topic_uuid() == topic_uuid,
            !delivery.stopped(),
    {
        Self { messages_reader, subscriber, topic_uuid, stopped: false }
    }

    /// The number of the subscription that the loop serves.
    pub fn subscription(&self) -> (id: u64)
        ensures
            id == self.subscriber(),
    {
        self.subscriber
    }

    /// One decision of the loop. The loop is over once it was stopped, once
    /// a delivery has failed, and once `service` no longer holds its
    /// subscription. Else it reads on from its cursor, past the messages of
    /// other topics: a message of its own topic is to be delivered, and
    /// the cursor stands on it; at a tombstone or at the end of the log
    /// there is nothing to do for now.
    pub fn step(
        &mut self,
        event: DeliveryEvent,
        service: &MessageService,
        messages: &ConcurrentList<Message>,
    ) -> (action: DeliveryAction)
        requires
            messages.wf(),
            old(self).cursor().wf(messages.nodes()),
        ensures
            final(self).cursor().wf(messages.nodes()),
            final(self).subscriber() == old(self).subscriber(),
            final(self).topic_uuid() == old(self).topic_uuid(),
            ({
                let over = old(self).stopped() || event == DeliveryEvent::DeliveryFailed
                    || !subscribed(service.subscribers(), old(self).subscriber());
                let stop = scan_stop(
                    messages@,
                    old(self).cursor().next_index() as int,
                    old(self).topic_uuid(),
                );
                &&& final(self).stopped() == over
                &&& over ==> action is Exit && final(self).cursor() == old(self).cursor()
                &&& !over && stop < messages@.len() ==> {
                    &&& final(self).cursor().global_index == stop
                    &&& !final(self).cursor().item_owed
                    &&& match messages@[stop] {
                        Some(m) => action == DeliveryAction::Deliver(m),
                        None => action is Idle,
                    }
                }
                &&& !over && stop >= messages@.len() ==> {
                    &&& action is Idle
                    &&& final(self).cursor().next_index() == stop
                }
            }),
    {
        if self.stopped {
            return DeliveryAction::Exit;
        }
        if event == DeliveryEvent::DeliveryFailed || !service.is_subscribed(self.subscriber) {
            self.stopped = true;
            return DeliveryAction::Exit;
        }
        let ghost log = messages@;
        let ghost start = self.messages_reader@.next_index() as int;
        loop
            invariant
                messages.wf(),
                log == messages@,
                self.messages_reader@.wf(messages.nodes()),
                self.subscriber == old(self).subscriber,
                self.topic_uuid == old(self).topic_uuid,
                !self.stopped,
                !old(self).stopped(),
                event != DeliveryEvent::DeliveryFailed,
                subscribed(service.subscribers(), old(self).subscriber()),
                start == old(self).cursor().next_index(),
                start <= self.messages_reader@.next_index(),
                scan_stop(log, self.messages_reader@.next_index() as int, self.topic_uuid)
                    == scan_stop(log, start, self.topic_uuid),
            decreases log.len() + 1 - self.messages_reader@.next_index(),
        {
            match self.messages_reader.next(messages) {
                None => {
                    return DeliveryAction::Idle;
                },
                Some(next) => {
                    match next.deref_option() {
                        None => {
                            return DeliveryAction::Idle;
                        },
                        Some(message) => {
                            if message.topic_uuid == self.topic_uuid {
                                return DeliveryAction::Deliver(message.clone());
                            }
                        },
                    }
                },
            }
        }
    }
}

/// A scan never stops before it starts.
pub proof fn lemma_scan_stop_bounds(log: Seq<Option<Message>>, from: int, topic_uuid: u128)
    ensures
        scan_stop(log, from, topic_uuid) >= from,
        0 <= from <= log.len() ==> scan_stop(log, from, topic_uuid) <= log.len(),
    decreases log.len() - from,
{
    if 0 <= from < log.len() {
        lemma_scan_stop_bounds(log, from + 1, topic_uuid);
    }
}

/// A scan does not pass a message of its topic: if one stands at index
/// `at`, at or after the start, the scan stops there or before.
pub proof fn lemma_scan_stop_finds(log: Seq<Option<Message>>, from: int, at: int, topic_uuid: u128)
    requires
        0 <= from <= at < log.len(),
        log[at] matches Some(m) && m.topic_uuid == topic_uuid,
    ensures
        scan_stop(log, from, topic_uuid) <= at,
    decreases at - from,
{
    if from < at {
        lemma_scan_stop_finds(log, from + 1, at, topic_uuid);
    }
}

/// A scan does not see what is appended behind the slot it stops at.
pub proof fn lemma_scan_stop_grows(
    log: Seq<Option<Message>>,
    longer: Seq<Option<Message>>,
    from: int,
    topic_uuid: u128,
)
    requires
        0 <= from,
        log.len() <= longer.len(),
        forall|i: int| 0 <= i < log.len() ==> log[i] == longer[i],
        scan_stop(log, from, topic_uuid) < log.len(),
    ensures
        scan_stop(longer, from, topic_uuid) == scan_stop(log, from, topic_uuid),
    decreases log.len() - from,
{
    if from < log.len() {
        match log[from] {
            None => {},
            Some(m) => {
                if m.topic_uuid != topic_uuid {
                    lemma_scan_stop_grows(log, longer, from + 1, topic_uuid);
                }
            },
        }
    }
}

/// One subscriber sees its topic in the order of the log. Let message `a`
/// stand at index `first` and message `b` at a later index `second`, both
/// of the subscriber's topic, both at or after the index where the
/// subscriber's loop reads on. Then the loop stops at `first` or before,
/// and reading on from any stop at or before `first` it still does not
/// pass `first`, nor pass `second` once it is beyond `first`: `b` is never
/// handed out before `a`.
pub proof fn lemma_delivery_in_order(
    log: Seq<Option<Message>>,
    from: int,
    first: int,
    second: int,
    topic_uuid: u128,
)
    requires
        0 <= from <= first < second < log.len(),
        log[first] matches Some(a) && a.topic_uuid == topic_uuid,
        log[second] matches Some(b) && b.topic_uuid == topic_uuid,
    ensures
        from <= scan_stop(log, from, topic_uuid) <= first,
        first < scan_stop(log, first + 1, topic_uuid) <= second,
{
    lemma_scan_stop_bounds(log, from, topic_uuid);
    lemma_scan_stop_finds(log, from, first, topic_uuid);
    lemma_scan_stop_bounds(log, first + 1, topic_uuid);
    lemma_scan_stop_finds(log, first + 1, second, topic_uuid);
}

/// Once a service has dropped its subscriptions to a topic, none of them
/// is held any more.
pub proof fn lemma_unsubscribed_not_held(subscribers: Seq<Subscriber>, topic_uuid: u128, id: u64)
    requires
        forall|i: int|
            0 <= i < subscribers.len() && (#[trigger] subscribers[i]).id == id
                ==> subscribers[i].topic_uuid == topic_uuid,
    ensures
        !subscribed(without_topic(subscribers, topic_uuid), id),
{
    let kept = without_topic(subscribers, topic_uuid);
    let others = |s: Subscriber| s.topic_uuid != topic_uuid;
    if subscribed(kept, id) {
        let i = choose|i: int| 0 <= i < kept.len() && (#[trigger] kept[i]).id == id;
        subscribers.lemma_filter_pred(others, i);
        subscribers.lemma_filter_contains_rev(others, kept[i]);
        let j = choose|j: int| 0 <= j < subscribers.len() && subscribers[j] == kept[i];
        assert(subscribers[j].id == id);
    }
}

/// The iterator over what was posted to a topic before a subscription,
/// latest first.
pub struct ReverseMessageIterator {
    messages_reader: Option<ConcurrentListRef>,
    topic_uuid: u128,
}

impl ReverseMessageIterator {
    /// Where the iterator stands in the log; nothing once it was stopped.
    pub closed spec fn cursor(&self) -> Option<crate::concurrent_list::CursorView> {
        match self.messages_reader {
            None => None,
            Some(reader) => Some(reader@),
        }
    }

    /// The topic whose messages the iterator hands out.
    pub closed spec fn topic_uuid(&self) -> u128 {
        self.topic_uuid
    }

    /// An iterator over the messages of `topic_uuid` that walks back from
    /// the slot before the one where `handle` stands: what stands under
    /// the handle, or comes to stand there, is not part of the history.
    pub fn new(handle: ConcurrentListRef, topic_uuid: u128) -> (iterator: Self)
        ensures
            iterator.cursor() == Some(handle@.owing(false)),
            iterator.topic_uuid() == topic_uuid,
    {
        let mut handle = handle;
        handle.return_current_elem_on_iteration(false);
        Self { messages_reader: Some(handle), topic_uuid }
    }

    /// Up to `count` more messages of the topic, walking back; what was
    /// handed out once is not handed out again. Fails once the iterator
    /// was stopped.
    pub fn next(&mut self, messages: &ConcurrentList<Message>, count: u32) -> (batch: Result<
        Vec<Message>,
        IteratorStopped,
    >)
        requires
            messages.wf(),
            old(self).cursor() matches Some(c) ==> c.wf(messages.nodes()),
        ensures
            final(self).topic_uuid() == old(self).topic_uuid(),
            batch.is_ok() == old(self).cursor().is_some(),
            batch.is_err() ==> final(self).cursor().is_none(),
            batch matches Ok(list) ==> {
                let from = old(self).cursor().unwrap().prev_index(messages@.len());
                &&& list@ == history(messages@, from, old(self).topic_uuid(), count as nat)
                &&& final(self).cursor().is_some()
                &&& final(self).cursor().unwrap().wf(messages.nodes())
                &&& final(self).cursor().unwrap().prev_index(messages@.len()) == history_rest(
                    messages@,
                    from,
                    old(self).topic_uuid(),
                    count as nat,
                )
            },
    {
        let mut reader = match self.messages_reader {
            None => {
                return Err(IteratorStopped);
            },
            Some(reader) => reader,
        };
        let ghost log = messages@;
        let ghost from = reader@.prev_index(log.len());
        let ghost topic = self.topic_uuid;
        let mut list: Vec<Message> = Vec::new();
        let mut left: u32 = count;
        proof {
            assert(list@ + history(log, from, topic, left as nat) =~= history(
                log,
                from,
                topic,
                count as nat,
            ));
        }
        while left > 0
            invariant
                messages.wf(),
                log == messages@,
                topic == self.topic_uuid,
                self.topic_uuid == old(self).topic_uuid,
                reader@.wf(messages.nodes()),
                reader@.prev_index(log.len()) < log.len(),
                list@ + history(log, reader@.prev_index(log.len()), topic, left as nat) == history(
                    log,
                    from,
                    topic,
                    count as nat,
                ),
                history_rest(log, reader@.prev_index(log.len()), topic, left as nat)
                    == history_rest(log, from, topic, count as nat),
            ensures
                left == 0 || reader@.prev_index(log.len()) < 0,
            decreases reader@.prev_index(log.len()) + 1,
        {
            let ghost at = reader@.prev_index(log.len());
            let ghost so_far = list@;
            match reader.next_back(messages) {
                None => {
                    break;
                },
                Some(guard) => {
                    match guard.deref_option() {
                        None => {},
                        Some(message) => {
                            if message.topic_uuid == self.topic_uuid {
                                proof {
                                    assert(so_far.push(*message) + history(
                                        log,
                                        at - 1,
                                        topic,
                                        (left - 1) as nat,
                                    ) =~= so_far + (seq![*message] + history(
                                        log,
                                        at - 1,
                                        topic,
                                        (left - 1) as nat,
                                    )));
                                }
                                list.push(message.clone());
                                left = left - 1;
                            }
                        },
                    }
                },
            }
        }
        proof {
            assert(list@ + Seq::<Message>::empty() =~= list@);
        }
        self.messages_reader = Some(reader);
        Ok(list)
    }

    /// Drops the cursor: from now on `next` fails.
    pub fn stop(&mut self)
        ensures
            final(self).cursor().is_none(),
            final(self).topic_uuid() == old(self).topic_uuid(),
    {
        self.messages_reader = None;
    }
}

} // verus!
