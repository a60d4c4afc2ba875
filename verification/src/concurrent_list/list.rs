use vstd::prelude::*;

use super::chunk::{chain_wf, has_room, log_view, Chunk, ChunkView};
use super::chunk_ref::ChunkRef;
use super::inner::ConcurrentListInner;
use super::write_guard::ChunkWriteGuard;

verus! {

/// Number of slots that a chunk holds unless the caller picks another size.
pub const DEFAULT_CHUNK_SIZE: usize = 256;

/// An append-only log in chunks of equal size. Slots keep their index for
/// good: removing a value leaves a tombstone behind.
///
/// The log is read and written through cursors ([`ChunkRef`]); a cursor is a
/// position only, and every operation names the log it works on.
pub struct ConcurrentList<T> {
    inner: ConcurrentListInner<T>,
}

pub type ConcurrentListRef = ChunkRef;

impl<T> View for ConcurrentList<T> {
    type V = Seq<Option<T>>;

    /// The log: what every reserved slot holds, by absolute index.
    open spec fn view(&self) -> Seq<Option<T>> {
        log_view(self.nodes())
    }
}

/// The values that a log holds, in order, tombstones and empty slots left out.
pub open spec fn live_values<T>(log: Seq<Option<T>>) -> Seq<T> {
    log.filter(|slot: Option<T>| slot.is_some()).map_values(|slot: Option<T>| slot.unwrap())
}

/// The log after the slot at index `at` was tombstoned. Tombstoning a slot
/// that is not reserved changes nothing.
pub open spec fn after_removal<T>(log: Seq<Option<T>>, at: int) -> Seq<Option<T>> {
    if 0 <= at < log.len() {
        log.update(at, None)
    } else {
        log
    }
}

/// What tombstoning the slot at index `at` hands out: what the slot held,
/// nothing for a slot that is empty or not reserved.
pub open spec fn removed_value<T>(log: Seq<Option<T>>, at: int) -> Option<T> {
    if 0 <= at < log.len() {
        log[at]
    } else {
        None
    }
}

/// Tombstoning is idempotent: removing a slot a second time hands out
/// nothing and leaves the log as the first removal left it.
pub proof fn lemma_tombstone_idempotent<T>(log: Seq<Option<T>>, at: int)
    ensures
        removed_value(after_removal(log, at), at) is None,
        after_removal(after_removal(log, at), at) == after_removal(log, at),
{
    assert(after_removal(after_removal(log, at), at) =~= after_removal(log, at));
}

/// A log that holds a value in every slot has exactly those values live.
pub proof fn lemma_live_values_of_values<T>(values: Seq<T>)
    ensures
        live_values(values.map_values(|v: T| Some(v))) == values,
    decreases values.len(),
{
    let wrap = |v: T| Some(v);
    if values.len() == 0 {
        assert(values.map_values(wrap) =~= Seq::<Option<T>>::empty());
        assert(live_values(Seq::<Option<T>>::empty()) =~= Seq::<T>::empty());
    } else {
        lemma_live_values_of_values(values.drop_last());
        lemma_live_values_push(values.drop_last().map_values(wrap), Some(values.last()));
        assert(values.drop_last().map_values(wrap).push(Some(values.last())) =~= values.map_values(
            wrap,
        ));
        assert(values.drop_last().push(values.last()) =~= values);
    }
}

/// One more slot at the end of a log adds its value to the live values, if it
/// holds one.
pub proof fn lemma_live_values_push<T>(log: Seq<Option<T>>, slot: Option<T>)
    ensures
        live_values(log.push(slot)) == (match slot {
            Some(value) => live_values(log).push(value),
            None => live_values(log),
        }),
{
    let is_some = |slot: Option<T>| slot.is_some();
    let unwrap = |slot: Option<T>| slot.unwrap();
    reveal(Seq::filter);
    assert(log.push(slot).drop_last() =~= log);
    match slot {
        Some(value) => {
            assert(log.push(slot).filter(is_some) =~= log.filter(is_some).push(slot));
            assert(log.filter(is_some).push(slot).map_values(unwrap) =~= log.filter(
                is_some,
            ).map_values(unwrap).push(value));
        },
        None => {
            assert(log.push(slot).filter(is_some) =~= log.filter(is_some));
        },
    }
}

impl<T> ConcurrentList<T> {
    /// The chunks, in order.
    pub closed spec fn nodes(&self) -> Seq<ChunkView<T>> {
        self.inner.nodes()
    }

    /// The chunks form a well-formed chain.
    pub open spec fn wf(&self) -> bool {
        chain_wf(self.nodes())
    }

    /// How many slots each chunk has.
    pub open spec fn chunk_capacity(&self) -> nat {
        self.nodes()[0].capacity()
    }

    /// An empty log whose chunks have `chunk_size` slots each.
    pub fn new(chunk_size: usize) -> (list: Self)
        requires
            chunk_size > 0,
        ensures
            list.wf(),
            list@ == Seq::<Option<T>>::empty(),
            list.nodes().len() == 1,
            list.chunk_capacity() == chunk_size,
    {
        Self { inner: ConcurrentListInner::new(chunk_size) }
    }

    /// An empty log whose chunks have `chunk_size` slots each; none for a
    /// chunk size of zero, which no log can have.
    pub fn try_new(chunk_size: usize) -> (list: Option<Self>)
        ensures
            list.is_some() == (chunk_size > 0),
            list.is_some() ==> {
                &&& list.unwrap().wf()
                &&& list.unwrap()@ == Seq::<Option<T>>::empty()
                &&& list.unwrap().nodes().len() == 1
                &&& list.unwrap().chunk_capacity() == chunk_size
            },
    {
        if chunk_size == 0 {
            None
        } else {
            Some(Self::new(chunk_size))
        }
    }

    /// A cursor on the first slot of the anchor chunk, which the first step
    /// of an iteration yields.
    pub fn reference(&self) -> (cursor: ChunkRef)
        requires
            self.wf(),
        ensures
            cursor@.wf(self.nodes()),
            cursor@.chunk == 0,
            cursor@.index == 0,
            cursor@.global_index == 0,
            cursor@.item_owed,
    {
        proof {
            assert(super::chunk::node_wf(self.nodes(), 0));
            assert(super::chunk::node_wf(self.nodes(), self.nodes().len() - 1));
            super::chunk::lemma_log_len(self.nodes());
        }
        let cursor = ChunkRef::new_at(self, 0, 0).unwrap();
        proof {
            super::chunk_ref::lemma_cursor_unique(
                self.nodes(),
                cursor@,
                super::chunk_ref::CursorView::at_node(self.nodes(), 0, true),
            );
        }
        cursor
    }

    /// How many slots are reserved.
    pub fn len(&self) -> (len: usize)
        requires
            self.wf(),
        ensures
            len == self@.len(),
    {
        self.inner.len()
    }

    /// How many chunks there are.
    pub fn nodes_count(&self) -> (count: usize)
        requires
            self.wf(),
        ensures
            count == self.nodes().len(),
    {
        self.inner.nodes_count()
    }

    /// The chunk at place `place`.
    pub fn node(&self, place: usize) -> (node: &Chunk<T>)
        requires
            place < self.nodes().len(),
        ensures
            node@ == self.nodes()[place as int],
    {
        self.inner.node(place)
    }

    /// Whether there is index space for one more chunk after the last.
    pub fn has_room(&self) -> (room: bool)
        requires
            self.wf(),
        ensures
            room == has_room(self.nodes()),
    {
        self.inner.has_room()
    }

    /// Appends `val`, starting the search for a free slot at the chunk at
    /// place `start`; returns the absolute index it was given.
    pub fn push_from(&mut self, start: usize, val: T) -> (index: usize)
        requires
            old(self).wf(),
            start < old(self).nodes().len(),
            has_room(old(self).nodes()),
        ensures
            final(self).wf(),
            final(self)@ == old(self)@.push(Some(val)),
            index == old(self)@.len(),
            final(self).nodes().len() >= old(self).nodes().len(),
            final(self).chunk_capacity() == old(self).chunk_capacity(),
    {
        self.inner.push_from(start, val)
    }

    /// Tombstones slot `rel_index` of the chunk at place `place` and hands
    /// out what it held.
    pub fn remove_in(&mut self, place: usize, rel_index: usize) -> (previous: Option<T>)
        requires
            old(self).wf(),
            place < old(self).nodes().len(),
        ensures
            final(self).wf(),
            final(self).nodes().len() == old(self).nodes().len(),
            final(self).chunk_capacity() == old(self).chunk_capacity(),
            rel_index < old(self).nodes()[place as int].length ==> {
                &&& previous == old(self).nodes()[place as int].slots[rel_index as int]
                &&& final(self)@ == old(self)@.update(
                    old(self).nodes()[place as int].start_index + rel_index,
                    None,
                )
            },
            rel_index >= old(self).nodes()[place as int].length ==> {
                &&& previous.is_none()
                &&& final(self).nodes() == old(self).nodes()
            },
    {
        self.inner.remove_in(place, rel_index)
    }

    /// Opens slot `rel_index` of the chunk at place `place` for writing:
    /// nothing if that slot is not reserved.
    pub fn slot_mut<'a>(&'a mut self, place: usize, rel_index: usize) -> (guard: Option<
        ChunkWriteGuard<'a, T>,
    >)
        requires
            old(self).wf(),
            place < old(self).nodes().len(),
        ensures
            guard.is_some() == (rel_index < old(self).nodes()[place as int].length),
            guard.is_some() ==> guard.unwrap()@ == old(self).nodes()[place as int].slots[rel_index as int],
            guard.is_some() ==> final(self).nodes() == old(self).nodes().update(
                place as int,
                old(self).nodes()[place as int].with_slot(
                    rel_index as int,
                    *final(guard.unwrap().inner_lock),
                ),
            ),
            guard.is_none() ==> final(self).nodes() == old(self).nodes(),
    {
        self.inner.slot_mut(place, rel_index)
    }

    /// The values in the log, oldest first; tombstones are left out.
    pub fn values(&self) -> (values: Vec<&T>)
        requires
            self.wf(),
        ensures
            values@.map_values(|v: &T| *v) == live_values(self@),
    {
        let ghost log = self@;
        let ghost is_some = |slot: Option<T>| slot.is_some();
        let ghost unwrap = |slot: Option<T>| slot.unwrap();
        let ghost deref = |v: &T| *v;
        let mut values: Vec<&T> = Vec::new();
        let mut cursor = self.reference();
        let ghost mut seen: nat = 0;
        proof {
            assert(log.take(0) =~= Seq::<Option<T>>::empty());
            assert(values@.map_values(deref) =~= live_values(log.take(0)));
        }
        loop
            invariant
                self.wf(),
                log == self@,
                is_some == |slot: Option<T>| slot.is_some(),
                unwrap == |slot: Option<T>| slot.unwrap(),
                deref == |v: &T| *v,
                cursor@.wf(self.nodes()),
                seen == cursor@.next_index(),
                seen <= log.len(),
                values@.map_values(deref) == live_values(log.take(seen as int)),
            ensures
                seen == log.len(),
                values@.map_values(deref) == live_values(log.take(seen as int)),
            decreases log.len() - seen,
        {
            match cursor.next(self) {
                None => {
                    break;
                },
                Some(guard) => {
                    proof {
                        lemma_live_values_push(log.take(seen as int), log[seen as int]);
                        assert(log.take(seen as int + 1) =~= log.take(seen as int).push(log[seen as int]));
                    }
                    match guard.deref_option() {
                        None => {},
                        Some(value) => {
                            proof {
                                assert(values@.push(value).map_values(deref) =~= values@.map_values(
                                    deref,
                                ).push(*value));
                            }
                            values.push(value);
                        },
                    }
                    proof {
                        seen = seen + 1;
                    }
                },
            }
        }
        proof {
            assert(log.take(log.len() as int) =~= log);
        }
        values
    }

    /// A log of chunks of the default size that holds `items`, in order.
    pub fn from_vec(items: Vec<T>) -> (list: Self)
        requires
            items@.len() + 2 * DEFAULT_CHUNK_SIZE <= usize::MAX,
        ensures
            list.wf(),
            list@ == items@.map_values(|item: T| Some(item)),
            list.chunk_capacity() == DEFAULT_CHUNK_SIZE,
    {
        let ghost wrap = |item: T| Some(item);
        let mut list = Self::new(DEFAULT_CHUNK_SIZE);
        let mut handle = list.reference();
        proof {
            assert(list@ =~= items@.take(0).map_values(wrap));
        }
        for item in it: items
            invariant
                wrap == |item: T| Some(item),
                it.seq() == items@,
                items@.len() + 2 * DEFAULT_CHUNK_SIZE <= usize::MAX,
                list.wf(),
                list.chunk_capacity() == DEFAULT_CHUNK_SIZE,
                handle@.wf(list.nodes()),
                list@ == items@.take(it.index() as int).map_values(wrap),
        {
            proof {
                let s = list.nodes();
                super::chunk::lemma_log_len(s);
                assert(super::chunk::node_wf(s, s.len() - 1));
                assert(super::chunk::node_wf(s, 0));
                let k = it.index() as int;
                assert(items@.take(k + 1).map_values(wrap) =~= items@.take(k).map_values(
                    wrap,
                ).push(Some(items@[k])));
            }
            handle.push(&mut list, item);
        }
        proof {
            assert(items@.take(items@.len() as int) =~= items@);
        }
        list
    }
}

} // verus!
