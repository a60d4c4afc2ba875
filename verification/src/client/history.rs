//! What the client does with the topics and the histories it is sent.

use vstd::prelude::*;

use crate::client::datatypes::{Message, Topic};

verus! {

/// Whether message `a` is no later than message `b`.
pub open spec fn no_later(a: Message, b: Message) -> bool {
    a.timestamp.seconds < b.timestamp.seconds || (a.timestamp.seconds == b.timestamp.seconds
        && a.timestamp.nanos <= b.timestamp.nanos)
}

/// Every message is no later than the ones after it.
pub open spec fn in_time_order(messages: Seq<Message>) -> bool {
    forall|i: int, j: int|
        0 <= i < j < messages.len() ==> no_later(#[trigger] messages[i], #[trigger] messages[j])
}

/// Puts `messages` in the order of their time: the standard library's
/// `sort_by_key` on the seconds and nanoseconds of each message. The same
/// messages are there afterwards, each as often as before, the earlier
/// before the later.
#[verifier::external_body]
fn sort_by_time(messages: &mut Vec<Message>)
    ensures
        final(messages)@.to_multiset() == old(messages)@.to_multiset(),
        in_time_order(final(messages)@),
{
    messages.sort_by_key(|m| (m.timestamp.seconds, m.timestamp.nanos));
}

/// The histories one after the other.
pub open spec fn joined_histories(histories: Seq<Vec<Message>>) -> Seq<Message>
    decreases histories.len(),
{
    if histories.len() == 0 {
        Seq::empty()
    } else {
        joined_histories(histories.drop_last()) + histories.last()@
    }
}

/// One history out of the histories of several topics: all their messages,
/// the earlier before the later.
pub fn merge_histories(histories: Vec<Vec<Message>>) -> (total: Vec<Message>)
    ensures
        total@.to_multiset() == joined_histories(histories@).to_multiset(),
        in_time_order(total@),
{
    let mut total: Vec<Message> = Vec::new();
    proof {
        assert(histories@.take(0) =~= Seq::<Vec<Message>>::empty());
    }
    for history in it: histories
        invariant
            it.seq() == histories@,
            total@ == joined_histories(histories@.take(it.index() as int)),
    {
        proof {
            let k = it.index() as int;
            assert(histories@.take(k + 1).drop_last() =~= histories@.take(k));
        }
        let mut history = history;
        total.append(&mut history);
    }
    proof {
        assert(histories@.take(histories@.len() as int) =~= histories@);
    }
    sort_by_time(&mut total);
    total
}

/// Where the first topic named `name` stands among `topics`, if there is one.
pub fn topic_by_name(topics: &Vec<Topic>, name: &String) -> (place: Option<usize>)
    ensures
        place matches Some(i) ==> i < topics@.len() && topics@[i as int].name@ == name@ && forall|
            k: int,
        |
            0 <= k < i ==> (#[trigger] topics@[k]).name@ != name@,
        place.is_none() ==> forall|k: int|
            0 <= k < topics@.len() ==> (#[trigger] topics@[k]).name@ != name@,
{
    let mut i: usize = 0;
    while i < topics.len()
        invariant
            i <= topics@.len(),
            forall|k: int| 0 <= k < i ==> (#[trigger] topics@[k]).name@ != name@,
        decreases topics@.len() - i,
    {
        if topics[i].name == *name {
            return Some(i);
        }
        i = i + 1;
    }
    None
}

} // verus!
