use vstd::prelude::*;

use super::chunk::{
    chain, chain_wf, has_room, lemma_log_len, lemma_log_store, log_view, node_wf, Chunk,
    ChunkView,
};
use super::write_guard::ChunkWriteGuard;

verus! {

/// The owner of a log's chunks. The chunk at place 0 is the anchor: the one
/// the log was created with.
pub struct ConcurrentListInner<T> {
    chunks: Vec<Chunk<T>>,
}

impl<T> View for ConcurrentListInner<T> {
    type V = Seq<Option<T>>;

    /// The log: what every reserved slot holds, by absolute index.
    open spec fn view(&self) -> Seq<Option<T>> {
        log_view(self.nodes())
    }
}

impl<T> ConcurrentListInner<T> {
    /// The chunks, in order.
    pub closed spec fn nodes(&self) -> Seq<ChunkView<T>> {
        chain(self.chunks@)
    }

    /// The chunks form a well-formed chain.
    pub open spec fn wf(&self) -> bool {
        chain_wf(self.nodes())
    }

    /// How many slots each chunk has.
    pub open spec fn chunk_capacity(&self) -> nat {
        self.nodes()[0].capacity()
    }

    /// A log of one empty chunk of `chunk_cap` slots.
    pub fn new(chunk_cap: usize) -> (list: Self)
        requires
            chunk_cap > 0,
        ensures
            list.wf(),
            list@ == Seq::<Option<T>>::empty(),
            list.nodes().len() == 1,
            list.chunk_capacity() == chunk_cap,
    {
        Self::with_capacity(chunk_cap, 1)
    }

    /// A log of one empty chunk of `chunk_cap` slots, with room set aside
    /// for `chunks_count` chunks. Further chunks come into being only when
    /// an append finds the last one full.
    pub fn with_capacity(chunk_cap: usize, chunks_count: usize) -> (list: Self)
        requires
            chunk_cap > 0,
            chunks_count > 0,
        ensures
            list.wf(),
            list@ == Seq::<Option<T>>::empty(),
            list.nodes().len() == 1,
            list.chunk_capacity() == chunk_cap,
    {
        let mut chunks: Vec<Chunk<T>> = Vec::with_capacity(chunks_count);
        chunks.push(Chunk::new(None, chunk_cap));
        proof {
            let s = chain(chunks@);
            assert(node_wf(s, 0));
            lemma_log_len(s);
            assert(log_view(s) =~= Seq::<Option<T>>::empty());
        }
        Self { chunks }
    }

    /// How many slots are reserved.
    pub fn len(&self) -> (len: usize)
        requires
            self.wf(),
        ensures
            len == self@.len(),
    {
        proof {
            assert(node_wf(self.nodes(), 0));
        }
        Chunk::front_elems_count(&self.chunks, 0) + Chunk::back_elems_count(&self.chunks, 0)
    }

    /// How many chunks there are.
    pub fn nodes_count(&self) -> (count: usize)
        requires
            self.wf(),
        ensures
            count == self.nodes().len(),
    {
        Chunk::front_nodes_count(&self.chunks, 0) + Chunk::back_nodes_count(&self.chunks, 0)
    }

    /// The anchor chunk.
    pub fn chunk(&self) -> (anchor: &Chunk<T>)
        requires
            self.wf(),
        ensures
            anchor@ == self.nodes()[0],
    {
        &self.chunks[0]
    }

    /// The chunk at place `place`.
    pub fn node(&self, place: usize) -> (node: &Chunk<T>)
        requires
            place < self.nodes().len(),
        ensures
            node@ == self.nodes()[place as int],
    {
        &self.chunks[place]
    }

    /// Opens slot `rel_index` of the chunk at place `place` for writing:
    /// nothing if that slot is not reserved.
    pub fn slot_mut<'a>(&'a mut self, place: usize, rel_index: usize) -> (guard: Option<
        ChunkWriteGuard<'a, T>,
    >)
        requires
            old(self).wf(),
            place < old(self).nodes().len(),
        ensures
            guard.is_some() == (rel_index < old(self).nodes()[place as int].length),
            guard.is_some() ==> guard.unwrap()@ == old(self).nodes()[place as int].slots[rel_index as int],
            guard.is_some() ==> final(self).nodes() == old(self).nodes().update(
                place as int,
                old(self).nodes()[place as int].with_slot(
                    rel_index as int,
                    *final(guard.unwrap().inner_lock),
                ),
            ),
            guard.is_none() ==> final(self).nodes() == old(self).nodes(),
    {
        let ghost s = self.nodes();
        proof {
            assert(node_wf(s, place as int));
        }
        self.chunks[place].at_mut(rel_index)
    }

    /// Whether there is index space for one more chunk after the last.
    pub fn has_room(&self) -> (room: bool)
        requires
            self.wf(),
        ensures
            room == has_room(self.nodes()),
    {
        let last = &self.chunks[self.chunks.len() - 1];
        proof {
            assert(node_wf(self.nodes(), self.nodes().len() - 1));
        }
        let cap = last.node_capacity();
        cap <= usize::MAX - last.node_start_index() - cap
    }

    /// Appends `val`, starting the search for a free slot at the chunk at
    /// place `start`; returns the absolute index it was given.
    pub fn push_from(&mut self, start: usize, val: T) -> (index: usize)
        requires
            old(self).wf(),
            start < old(self).nodes().len(),
            has_room(old(self).nodes()),
        ensures
            final(self).wf(),
            final(self)@ == old(self)@.push(Some(val)),
            index == old(self)@.len(),
            final(self).nodes().len() >= old(self).nodes().len(),
            final(self).chunk_capacity() == old(self).chunk_capacity(),
    {
        Chunk::push(&mut self.chunks, start, val)
    }

    /// Tombstones slot `rel_index` of the chunk at place `place` and hands
    /// out what it held.
    pub fn remove_in(&mut self, place: usize, rel_index: usize) -> (previous: Option<T>)
        requires
            old(self).wf(),
            place < old(self).nodes().len(),
        ensures
            final(self).wf(),
            final(self).nodes().len() == old(self).nodes().len(),
            final(self).chunk_capacity() == old(self).chunk_capacity(),
            rel_index < old(self).nodes()[place as int].length ==> {
                &&& previous == old(self).nodes()[place as int].slots[rel_index as int]
                &&& final(self).nodes() == old(self).nodes().update(
                    place as int,
                    old(self).nodes()[place as int].with_slot(rel_index as int, None),
                )
                &&& final(self)@ == old(self)@.update(
                    old(self).nodes()[place as int].start_index + rel_index,
                    None,
                )
            },
            rel_index >= old(self).nodes()[place as int].length ==> {
                &&& previous.is_none()
                &&& final(self).nodes() == old(self).nodes()
                &&& final(self)@ == old(self)@
            },
    {
        let ghost s = self.nodes();
        proof {
            assert(node_wf(s, place as int));
            assert(node_wf(s, 0));
            if rel_index < s[place as int].length {
                lemma_log_store(s, place as int, rel_index as int, None);
            }
        }
        let previous = self.chunks[place].remove_at(rel_index);
        proof {
            if rel_index < s[place as int].length {
                assert(self.nodes() =~= s.update(
                    place as int,
                    s[place as int].with_slot(rel_index as int, None),
                ));
            } else {
                assert(self.nodes() =~= s);
            }
        }
        previous
    }
}

} // verus!
