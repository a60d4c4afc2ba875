use vstd::prelude::*;

use super::chunk_ref::ChunkRef;
use super::list::ConcurrentList;
use super::read_guard::ChunkReadGuard;

verus! {

/// A forward walk over the values of a log: empty slots and tombstones are
/// passed over.
pub struct ChunkIterator {
    cursor: ChunkRef,
}

/// Where a walk that starts at index `from` finds the next value: the first
/// slot at or after `from` that holds one, or the end of the log.
pub open spec fn next_value<T>(log: Seq<Option<T>>, from: int) -> int
    decreases log.len() - from,
{
    if from < 0 || from >= log.len() {
        from
    } else if log[from] is Some {
        from
    } else {
        next_value(log, from + 1)
    }
}

/// The next value stands at or after the start, no slot between the two
/// holds a value, and the slot found holds one unless the log has ended.
pub proof fn lemma_next_value<T>(log: Seq<Option<T>>, from: int)
    requires
        0 <= from,
    ensures
        from <= next_value(log, from),
        from <= log.len() ==> next_value(log, from) <= log.len(),
        next_value(log, from) < log.len() ==> log[next_value(log, from)] is Some,
        forall|i: int| from <= i < next_value(log, from) && i < log.len() ==> (#[trigger] log[i]) is None,
    decreases log.len() - from,
{
    if from < log.len() && log[from] is None {
        lemma_next_value(log, from + 1);
    }
}

impl ChunkIterator {
    /// Where the walk stands.
    pub closed spec fn cursor(&self) -> super::chunk_ref::CursorView {
        self.cursor@
    }

    /// A walk that goes on from where `cursor` stands.
    pub fn new(cursor: ChunkRef) -> (walk: Self)
        ensures
            walk.cursor() == cursor@,
    {
        Self { cursor }
    }

    /// A walk over all of `list`, from its first slot.
    pub fn over<T>(list: &ConcurrentList<T>) -> (walk: Self)
        requires
            list.wf(),
        ensures
            walk.cursor().wf(list.nodes()),
            walk.cursor().next_index() == 0,
    {
        Self { cursor: list.reference() }
    }

    /// The next value and a guard on it; nothing once no value is left.
    /// The walk then stands on the last reserved slot, and goes on when
    /// more is appended.
    pub fn next<'a, T>(&mut self, list: &'a ConcurrentList<T>) -> (guard: Option<
        ChunkReadGuard<'a, T>,
    >)
        requires
            list.wf(),
            old(self).cursor().wf(list.nodes()),
        ensures
            final(self).cursor().wf(list.nodes()),
            ({
                let found = next_value(list@, old(self).cursor().next_index() as int);
                &&& guard.is_some() == (found < list@.len())
                &&& guard.is_some() ==> {
                    &&& guard.unwrap()@ == list@[found]
                    &&& guard.unwrap()@.is_some()
                    &&& final(self).cursor().global_index == found
                    &&& !final(self).cursor().item_owed
                }
                &&& guard.is_none() ==> final(self).cursor().next_index() == found
            }),
    {
        let ghost log = list@;
        let ghost start = self.cursor@.next_index() as int;
        loop
            invariant
                list.wf(),
                log == list@,
                self.cursor@.wf(list.nodes()),
                start == old(self).cursor().next_index(),
                start <= self.cursor@.next_index(),
                next_value(log, self.cursor@.next_index() as int) == next_value(log, start),
            decreases log.len() + 1 - self.cursor@.next_index(),
        {
            match self.cursor.next(list) {
                None => {
                    return None;
                },
                Some(guard) => {
                    if guard.is_some() {
                        return Some(guard);
                    }
                },
            }
        }
    }
}

} // verus!
