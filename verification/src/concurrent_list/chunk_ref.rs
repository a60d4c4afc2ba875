use vstd::prelude::*;

use super::chunk::{
    chain_wf, has_room, lemma_log_index, lemma_log_len, lemma_starts_ordered, log_view, node_wf,
    ChunkView,
};
use super::list::{after_removal, removed_value, ConcurrentList};
use super::read_guard::ChunkReadGuard;
use super::write_guard::ChunkWriteGuard;

verus! {

/// What a move returns when there is nowhere to go.
pub type EndOfCollection = ();

/// A cursor into a log: the place of a chunk, an offset within it, the
/// absolute index that the two amount to, and whether the slot under the
/// cursor is still owed to the reader.
///
/// A cursor holds no reference to its log; every operation names the log.
/// Appends and removals never invalidate a cursor.
#[derive(Clone, Copy)]
pub struct ChunkRef {
    chunk: usize,
    index: usize,
    global_index: usize,
    item_owed: bool,
}

/// A cursor as a mathematical value.
pub struct CursorView {
    pub chunk: nat,
    pub index: nat,
    pub global_index: nat,
    pub item_owed: bool,
}

impl CursorView {
    /// The cursor points into chain `s`: at a chunk that exists, at an offset
    /// no greater than the chunk's capacity, at an absolute index that agrees
    /// with both and lies no further than the end of the log.
    pub open spec fn wf<T>(self, s: Seq<ChunkView<T>>) -> bool {
        &&& self.chunk < s.len()
        &&& self.index <= s[self.chunk as int].capacity()
        &&& self.global_index == s[self.chunk as int].start_index + self.index
        &&& self.global_index <= log_view(s).len()
    }

    /// The cursor at the first slot of the chunk at place `place`.
    pub open spec fn at_node<T>(s: Seq<ChunkView<T>>, place: nat, item_owed: bool) -> CursorView {
        CursorView { chunk: place, index: 0, global_index: s[place as int].start_index, item_owed }
    }

    /// The same cursor with the flag set to `item_owed`.
    pub open spec fn owing(self, item_owed: bool) -> CursorView {
        CursorView { item_owed, ..self }
    }

    /// The absolute index of the slot that the next step forward yields,
    /// once it is reserved: the slot under the cursor if it is owed, else
    /// the one after it.
    pub open spec fn next_index(self) -> nat {
        if self.item_owed {
            self.global_index
        } else {
            self.global_index + 1
        }
    }

    /// The absolute index of the slot that the next step backward yields on
    /// a log of `len` slots, if it is not negative: the slot under the
    /// cursor if it is owed and reserved, else the one before it.
    pub open spec fn prev_index(self, len: nat) -> int {
        if self.item_owed && self.global_index < len {
            self.global_index as int
        } else {
            self.global_index - 1
        }
    }
}

/// A cursor within a chunk is determined by its absolute index.
pub proof fn lemma_cursor_unique<T>(s: Seq<ChunkView<T>>, a: CursorView, b: CursorView)
    requires
        chain_wf(s),
        a.wf(s),
        b.wf(s),
        a.index < s[a.chunk as int].capacity(),
        b.index < s[b.chunk as int].capacity(),
        a.global_index == b.global_index,
    ensures
        a.chunk == b.chunk,
        a.index == b.index,
{
    if a.chunk < b.chunk {
        lemma_starts_ordered(s, a.chunk as int, b.chunk as int);
    } else if b.chunk < a.chunk {
        lemma_starts_ordered(s, b.chunk as int, a.chunk as int);
    }
}

/// Two well-formed chains of the same chunk size start their chunks at the
/// same indices.
pub proof fn lemma_starts_agree<T>(s: Seq<ChunkView<T>>, t: Seq<ChunkView<T>>, i: int)
    requires
        chain_wf(s),
        chain_wf(t),
        s[0].capacity() == t[0].capacity(),
        0 <= i < s.len(),
        i < t.len(),
    ensures
        s[i].start_index == t[i].start_index,
        s[i].capacity() == t[i].capacity(),
    decreases i,
{
    assert(node_wf(s, i));
    assert(node_wf(t, i));
    if i > 0 {
        lemma_starts_agree(s, t, i - 1);
    }
}

/// A cursor stays valid when its log grows: on a chain of the same chunk
/// size with no fewer chunks and no shorter log.
pub proof fn lemma_cursor_stays_valid<T>(s: Seq<ChunkView<T>>, t: Seq<ChunkView<T>>, c: CursorView)
    requires
        chain_wf(s),
        chain_wf(t),
        s[0].capacity() == t[0].capacity(),
        s.len() <= t.len(),
        log_view(s).len() <= log_view(t).len(),
        c.wf(s),
    ensures
        c.wf(t),
{
    lemma_starts_agree(s, t, c.chunk as int);
}

impl View for ChunkRef {
    type V = CursorView;

    closed spec fn view(&self) -> CursorView {
        CursorView {
            chunk: self.chunk as nat,
            index: self.index as nat,
            global_index: self.global_index as nat,
            item_owed: self.item_owed,
        }
    }
}

impl ChunkRef {
    /// A cursor `index` slots after the first slot of the chunk at place
    /// `chunk`, owing the slot it stands on. There is none if that position
    /// lies beyond the reserved slots, unless it is the first slot of a chunk.
    pub fn new_at<T>(list: &ConcurrentList<T>, chunk: usize, index: usize) -> (cursor: Option<Self>)
        requires
            list.wf(),
            chunk < list.nodes().len(),
        ensures
            cursor.is_some() == ({
                let g = list.nodes()[chunk as int].start_index + index;
                g < list@.len() || (g == list@.len() && list.nodes().last().length == 0)
            }),
            cursor.is_some() ==> {
                let c = cursor.unwrap()@;
                &&& c.wf(list.nodes())
                &&& c.global_index == list.nodes()[chunk as int].start_index + index
                &&& c.index < list.nodes()[c.chunk as int].capacity()
                &&& c.item_owed
            },
    {
        let ghost s = list.nodes();
        let ghost g = s[chunk as int].start_index + index;
        let mut place = chunk;
        let mut offset = index;
        proof {
            lemma_log_len(s);
            assert(node_wf(s, s.len() - 1));
        }
        loop
            invariant
                s == list.nodes(),
                chain_wf(s),
                place < s.len(),
                chunk < s.len(),
                g == s[chunk as int].start_index + index,
                g == s[place as int].start_index + offset,
            ensures
                place < s.len(),
                g == s[place as int].start_index + offset,
                offset < s[place as int].capacity(),
            decreases s.len() - place,
        {
            proof {
                assert(node_wf(s, place as int));
                lemma_log_len(s);
                if place + 1 < s.len() {
                    assert(node_wf(s, place + 1));
                }
            }
            let node = list.node(place);
            if offset < node.node_capacity() {
                break;
            }
            offset = offset - node.node_capacity();
            match node.next_node() {
                None => {
                    return None;
                },
                Some(next) => {
                    place = next;
                },
            }
        }
        proof {
            assert(node_wf(s, place as int));
            if place + 1 < s.len() {
                lemma_starts_ordered(s, place as int, s.len() - 1);
            }
        }
        if offset != 0 && offset >= list.node(place).node_len() {
            return None;
        }
        let global_index = list.node(place).node_start_index() + offset;
        Some(Self { chunk: place, index: offset, global_index, item_owed: true })
    }

    /// The place of the chunk the cursor is in.
    pub fn chunk(&self) -> (place: usize)
        ensures
            place == self@.chunk,
    {
        self.chunk
    }

    /// Moves the cursor to the first slot of the chunk at place `chunk`.
    pub fn set_chunk<T>(&mut self, list: &ConcurrentList<T>, chunk: usize)
        requires
            list.wf(),
            chunk < list.nodes().len(),
        ensures
            final(self)@ == CursorView::at_node(list.nodes(), chunk as nat, old(self)@.item_owed),
            final(self)@.wf(list.nodes()),
    {
        proof {
            let s = list.nodes();
            assert(node_wf(s, chunk as int));
            lemma_log_len(s);
            if chunk + 1 < s.len() {
                lemma_starts_ordered(s, chunk as int, s.len() - 1);
            }
        }
        self.chunk = chunk;
        self.index = 0;
        self.global_index = list.node(chunk).node_start_index();
    }

    /// Reads the slot under the cursor: nothing if that slot is not
    /// reserved, else a guard on what it holds.
    pub fn get<'a, T>(&self, list: &'a ConcurrentList<T>) -> (guard: Option<ChunkReadGuard<'a, T>>)
        requires
            list.wf(),
            self@.wf(list.nodes()),
        ensures
            guard.is_some() == (self@.global_index < list@.len()),
            guard.is_some() ==> guard.unwrap()@ == list@[self@.global_index as int],
    {
        let ghost s = list.nodes();
        proof {
            lemma_log_len(s);
            assert(node_wf(s, self.chunk as int));
            assert(node_wf(s, s.len() - 1));
            if self.chunk + 1 < s.len() {
                assert(node_wf(s, self.chunk + 1));
                lemma_starts_ordered(s, self.chunk as int, s.len() - 1);
                if self.chunk + 2 < s.len() {
                    lemma_starts_ordered(s, self.chunk + 1, s.len() - 1);
                }
            }
        }
        let node = list.node(self.chunk);
        if self.index < node.node_capacity() {
            proof {
                if self.index < s[self.chunk as int].length {
                    lemma_log_index(s, self.chunk as int, self.index as int);
                }
            }
            node.at(self.index)
        } else {
            match node.next_node() {
                None => None,
                Some(next) => {
                    proof {
                        if s[next as int].length > 0 {
                            lemma_log_index(s, next as int, 0);
                        }
                    }
                    list.node(next).at(0)
                },
            }
        }
    }

    /// Opens the slot under the cursor for writing: nothing if that slot is
    /// not reserved, else a guard through which it is read and replaced.
    pub fn get_mut<'a, T>(&self, list: &'a mut ConcurrentList<T>) -> (guard: Option<
        ChunkWriteGuard<'a, T>,
    >)
        requires
            old(list).wf(),
            self@.wf(old(list).nodes()),
            self@.index < old(list).nodes()[self@.chunk as int].capacity(),
        ensures
            guard.is_some() == (self@.global_index < old(list)@.len()),
            guard.is_some() ==> guard.unwrap()@ == old(list)@[self@.global_index as int],
            guard.is_some() ==> final(list).nodes() == old(list).nodes().update(
                self@.chunk as int,
                old(list).nodes()[self@.chunk as int].with_slot(
                    self@.index as int,
                    *final(guard.unwrap().inner_lock),
                ),
            ),
            guard.is_none() ==> final(list).nodes() == old(list).nodes(),
    {
        let ghost s = list.nodes();
        proof {
            lemma_log_len(s);
            assert(node_wf(s, self.chunk as int));
            if self.chunk + 1 < s.len() {
                lemma_starts_ordered(s, self.chunk as int, s.len() - 1);
            }
            if self.index < s[self.chunk as int].length {
                lemma_log_index(s, self.chunk as int, self.index as int);
            }
        }
        list.slot_mut(self.chunk, self.index)
    }

    /// The absolute index of the slot under the cursor.
    pub fn index(&self) -> (global_index: usize)
        ensures
            global_index == self@.global_index,
    {
        self.global_index
    }

    /// Steps one slot forward, into the next chunk where the offset reaches
    /// the chunk's capacity. Fails, and stays, when the slot after the
    /// cursor is not reserved.
    pub fn go_next<T>(&mut self, list: &ConcurrentList<T>) -> (moved: Result<(), EndOfCollection>)
        requires
            list.wf(),
            old(self)@.wf(list.nodes()),
        ensures
            moved.is_ok() == (old(self)@.global_index + 1 < list@.len()),
            moved.is_err() ==> final(self)@ == old(self)@,
            moved.is_ok() ==> {
                &&& final(self)@.wf(list.nodes())
                &&& final(self)@.global_index == old(self)@.global_index + 1
                &&& final(self)@.index < list.nodes()[final(self)@.chunk as int].capacity()
                &&& final(self)@.item_owed == old(self)@.item_owed
            },
    {
        let ghost s = list.nodes();
        proof {
            lemma_log_len(s);
            assert(node_wf(s, self.chunk as int));
            assert(node_wf(s, s.len() - 1));
            if self.chunk + 1 < s.len() {
                assert(node_wf(s, self.chunk + 1));
                lemma_starts_ordered(s, self.chunk as int, s.len() - 1);
                if self.chunk + 2 < s.len() {
                    lemma_starts_ordered(s, self.chunk + 1, s.len() - 1);
                }
            }
        }
        let mut place = self.chunk;
        let mut offset = self.index;
        if offset >= list.node(place).node_capacity() {
            // The cursor has run off the end of its chunk: it stands on the
            // first slot of the next one, if there is one.
            match list.node(place).next_node() {
                None => {
                    return Err(());
                },
                Some(next) => {
                    place = next;
                    offset = 0;
                },
            }
        }
        proof {
            assert(node_wf(s, place as int));
            if place + 1 < s.len() {
                assert(node_wf(s, place + 1));
                lemma_starts_ordered(s, place as int, s.len() - 1);
                if place + 2 < s.len() {
                    lemma_starts_ordered(s, place + 1, s.len() - 1);
                }
            }
        }
        let node = list.node(place);
        if offset + 1 < node.node_capacity() {
            if offset + 1 < node.node_len() {
                self.chunk = place;
                self.index = offset + 1;
                self.global_index = self.global_index + 1;
                Ok(())
            } else {
                Err(())
            }
        } else {
            match node.next_node() {
                None => Err(()),
                Some(next) => {
                    if list.node(next).node_len() > 0 {
                        self.chunk = next;
                        self.index = 0;
                        self.global_index = self.global_index + 1;
                        Ok(())
                    } else {
                        Err(())
                    }
                },
            }
        }
    }

    /// Steps one slot back, into the chunk before where the offset is 0.
    /// Fails, and stays, at the first slot of the log.
    pub fn go_prev<T>(&mut self, list: &ConcurrentList<T>) -> (moved: Result<(), EndOfCollection>)
        requires
            list.wf(),
            old(self)@.wf(list.nodes()),
        ensures
            moved.is_ok() == (old(self)@.global_index > 0),
            moved.is_err() ==> final(self)@ == old(self)@,
            moved.is_ok() ==> {
                &&& final(self)@.wf(list.nodes())
                &&& final(self)@.global_index == old(self)@.global_index - 1
                &&& final(self)@.index < list.nodes()[final(self)@.chunk as int].capacity()
                &&& final(self)@.item_owed == old(self)@.item_owed
            },
    {
        let ghost s = list.nodes();
        proof {
            assert(node_wf(s, self.chunk as int));
            if self.chunk > 0 {
                assert(node_wf(s, self.chunk - 1));
            }
        }
        if self.index == 0 {
            match list.node(self.chunk).prev_node() {
                None => Err(()),
                Some(prev) => {
                    self.chunk = prev;
                    self.index = list.node(prev).node_capacity() - 1;
                    self.global_index = self.global_index - 1;
                    Ok(())
                },
            }
        } else {
            self.index = self.index - 1;
            self.global_index = self.global_index - 1;
            Ok(())
        }
    }

    /// Moves to the first slot of the next chunk; fails, and stays, in the
    /// last chunk.
    pub fn go_next_node<T>(&mut self, list: &ConcurrentList<T>) -> (moved: Result<(), ()>)
        requires
            list.wf(),
            old(self)@.wf(list.nodes()),
        ensures
            moved.is_ok() == (old(self)@.chunk + 1 < list.nodes().len()),
            moved.is_err() ==> final(self)@ == old(self)@,
            moved.is_ok() ==> final(self)@ == CursorView::at_node(
                list.nodes(),
                old(self)@.chunk + 1,
                old(self)@.item_owed,
            ),
            final(self)@.wf(list.nodes()),
    {
        proof {
            assert(node_wf(list.nodes(), self.chunk as int));
        }
        match list.node(self.chunk).next_node() {
            None => Err(()),
            Some(next) => {
                self.set_chunk(list, next);
                Ok(())
            },
        }
    }

    /// Moves to the first slot of the chunk before; fails, and stays, in
    /// the first chunk.
    pub fn go_prev_node<T>(&mut self, list: &ConcurrentList<T>) -> (moved: Result<(), ()>)
        requires
            list.wf(),
            old(self)@.wf(list.nodes()),
        ensures
            moved.is_ok() == (old(self)@.chunk > 0),
            moved.is_err() ==> final(self)@ == old(self)@,
            moved.is_ok() ==> final(self)@ == CursorView::at_node(
                list.nodes(),
                (old(self)@.chunk - 1) as nat,
                old(self)@.item_owed,
            ),
            final(self)@.wf(list.nodes()),
    {
        proof {
            assert(node_wf(list.nodes(), self.chunk as int));
        }
        match list.node(self.chunk).prev_node() {
            None => Err(()),
            Some(prev) => {
                self.set_chunk(list, prev);
                Ok(())
            },
        }
    }

    /// Walks to the last chunk. A cursor already there stays where it is;
    /// any other ends on the last chunk's first slot.
    pub fn go_to_front_node<T>(&mut self, list: &ConcurrentList<T>)
        requires
            list.wf(),
            old(self)@.wf(list.nodes()),
        ensures
            final(self)@.wf(list.nodes()),
            final(self)@.chunk == list.nodes().len() - 1,
            final(self)@ == (if old(self)@.chunk == list.nodes().len() - 1 {
                old(self)@
            } else {
                CursorView::at_node(
                    list.nodes(),
                    (list.nodes().len() - 1) as nat,
                    old(self)@.item_owed,
                )
            }),
    {
        loop
            invariant
                list.wf(),
                self@.wf(list.nodes()),
                self@.chunk >= old(self)@.chunk,
                self@ == (if self@.chunk == old(self)@.chunk {
                    old(self)@
                } else {
                    CursorView::at_node(list.nodes(), self@.chunk, old(self)@.item_owed)
                }),
            ensures
                self@.chunk == list.nodes().len() - 1,
            decreases list.nodes().len() - self@.chunk,
        {
            if self.go_next_node(list).is_err() {
                break;
            }
        }
    }

    /// Walks to the first chunk. A cursor already there stays where it is;
    /// any other ends on the first slot of the log.
    pub fn go_to_back_node<T>(&mut self, list: &ConcurrentList<T>)
        requires
            list.wf(),
            old(self)@.wf(list.nodes()),
        ensures
            final(self)@.wf(list.nodes()),
            final(self)@.chunk == 0,
            final(self)@ == (if old(self)@.chunk == 0 {
                old(self)@
            } else {
                CursorView::at_node(list.nodes(), 0, old(self)@.item_owed)
            }),
    {
        loop
            invariant
                list.wf(),
                self@.wf(list.nodes()),
                self@.chunk <= old(self)@.chunk,
                self@ == (if self@.chunk == old(self)@.chunk {
                    old(self)@
                } else {
                    CursorView::at_node(list.nodes(), self@.chunk, old(self)@.item_owed)
                }),
            ensures
                self@.chunk == 0,
            decreases self@.chunk,
        {
            if self.go_prev_node(list).is_err() {
                break;
            }
        }
    }

    /// Walks to the chunk whose slots include absolute index `index`. Fails
    /// when no chunk does, and then stands in the last chunk. A cursor that
    /// changes chunk ends on the first slot of the chunk it reaches.
    pub fn go_to_node_with_index<T>(&mut self, list: &ConcurrentList<T>, index: usize) -> (found:
        Result<(), ()>)
        requires
            list.wf(),
            old(self)@.wf(list.nodes()),
        ensures
            final(self)@.wf(list.nodes()),
            found.is_ok() == (index < list.nodes().last().start_index
                + list.nodes().last().capacity()),
            found.is_ok() ==> {
                let c = list.nodes()[final(self)@.chunk as int];
                c.start_index <= index < c.start_index + c.capacity()
            },
            found.is_err() ==> final(self)@.chunk == list.nodes().len() - 1,
            final(self)@ == (if final(self)@.chunk == old(self)@.chunk {
                old(self)@
            } else {
                CursorView::at_node(list.nodes(), final(self)@.chunk, old(self)@.item_owed)
            }),
    {
        let ghost s = list.nodes();
        loop
            invariant
                s == list.nodes(),
                list.wf(),
                self@.wf(s),
                self@.chunk <= old(self)@.chunk,
                self@ == (if self@.chunk == old(self)@.chunk {
                    old(self)@
                } else {
                    CursorView::at_node(s, self@.chunk, old(self)@.item_owed)
                }),
                self@.chunk < old(self)@.chunk ==> index < s[self@.chunk as int].start_index
                    + s[self@.chunk as int].capacity(),
            ensures
                index >= s[self@.chunk as int].start_index,
            decreases self@.chunk,
        {
            proof {
                assert(node_wf(s, self.chunk as int));
                if self.chunk > 0 {
                    assert(node_wf(s, self.chunk - 1));
                }
            }
            if index >= list.node(self.chunk).node_start_index() {
                break;
            }
            let moved = self.go_prev_node(list);
            assert(moved.is_ok());
        }
        let ghost mid = self@;
        loop
            invariant
                s == list.nodes(),
                list.wf(),
                self@.wf(s),
                index >= s[self@.chunk as int].start_index,
                self@.chunk >= mid.chunk,
                mid.chunk <= old(self)@.chunk,
                mid == (if mid.chunk == old(self)@.chunk {
                    old(self)@
                } else {
                    CursorView::at_node(s, mid.chunk, old(self)@.item_owed)
                }),
                mid.chunk < old(self)@.chunk ==> self@.chunk == mid.chunk && index < s[mid.chunk as int].start_index
                    + s[mid.chunk as int].capacity(),
                self@ == (if self@.chunk == mid.chunk {
                    mid
                } else {
                    CursorView::at_node(s, self@.chunk, mid.item_owed)
                }),
            ensures
                s[self@.chunk as int].start_index <= index < s[self@.chunk as int].start_index
                    + s[self@.chunk as int].capacity(),
            decreases s.len() - self@.chunk,
        {
            proof {
                assert(node_wf(s, self.chunk as int));
                assert(node_wf(s, s.len() - 1));
                if self.chunk + 1 < s.len() {
                    assert(node_wf(s, self.chunk + 1));
                    lemma_starts_ordered(s, self.chunk as int, s.len() - 1);
                }
            }
            let node = list.node(self.chunk);
            if index < node.node_start_index() + node.node_capacity() {
                break;
            }
            if self.go_next_node(list).is_err() {
                return Err(());
            }
        }
        proof {
            if self.chunk + 1 < s.len() {
                lemma_starts_ordered(s, self.chunk as int, s.len() - 1);
            }
            assert(node_wf(s, s.len() - 1));
            assert(node_wf(s, self.chunk as int));
        }
        Ok(())
    }

    /// Appends `elem` to the log and returns the absolute index it was
    /// given. The cursor walks to the last chunk first.
    pub fn push<T>(&mut self, list: &mut ConcurrentList<T>, elem: T) -> (index: usize)
        requires
            old(list).wf(),
            old(self)@.wf(old(list).nodes()),
            has_room(old(list).nodes()),
        ensures
            final(list).wf(),
            final(list)@ == old(list)@.push(Some(elem)),
            index == old(list)@.len(),
            final(list).nodes().len() >= old(list).nodes().len(),
            final(list).chunk_capacity() == old(list).chunk_capacity(),
            final(self)@.wf(final(list).nodes()),
            final(self)@.chunk == old(list).nodes().len() - 1,
            final(self)@ == (if old(self)@.chunk == old(list).nodes().len() - 1 {
                old(self)@
            } else {
                CursorView::at_node(
                    old(list).nodes(),
                    (old(list).nodes().len() - 1) as nat,
                    old(self)@.item_owed,
                )
            }),
    {
        self.go_to_front_node(list);
        let ghost s = list.nodes();
        let index = list.push_from(self.chunk, elem);
        proof {
            lemma_cursor_stays_valid(s, list.nodes(), self@);
        }
        index
    }

    /// Appends `elem` to the log if there is index space for it; returns
    /// the absolute index it was given, or hands `elem` back.
    pub fn try_push<T>(&mut self, list: &mut ConcurrentList<T>, elem: T) -> (index: Result<
        usize,
        T,
    >)
        requires
            old(list).wf(),
            old(self)@.wf(old(list).nodes()),
        ensures
            final(list).wf(),
            final(self)@.wf(final(list).nodes()),
            index.is_ok() == has_room(old(list).nodes()),
            index matches Ok(i) ==> final(list)@ == old(list)@.push(Some(elem)) && i == old(list)@.len(),
            index matches Err(e) ==> final(list)@ == old(list)@ && e == elem && final(self)@ == old(self)@,
    {
        if list.has_room() {
            Ok(self.push(list, elem))
        } else {
            Err(elem)
        }
    }

    /// Tombstones the slot at absolute index `global_index` and hands out
    /// what it held; nothing for a slot that is empty or not reserved. The
    /// cursor walks to the chunk of that slot, or to the last chunk if
    /// there is none.
    pub fn remove_at<T>(&mut self, list: &mut ConcurrentList<T>, global_index: usize) -> (previous:
        Option<T>)
        requires
            old(list).wf(),
            old(self)@.wf(old(list).nodes()),
        ensures
            final(list).wf(),
            final(list).nodes().len() == old(list).nodes().len(),
            final(list).chunk_capacity() == old(list).chunk_capacity(),
            final(self)@.wf(final(list).nodes()),
            previous == removed_value(old(list)@, global_index as int),
            final(list)@ == after_removal(old(list)@, global_index as int),
    {
        let ghost s = list.nodes();
        proof {
            lemma_log_len(s);
            assert(node_wf(s, s.len() - 1));
        }
        match self.go_to_node_with_index(list, global_index) {
            Err(()) => None,
            Ok(()) => {
                proof {
                    assert(node_wf(s, self.chunk as int));
                    if self.chunk + 1 < s.len() {
                        lemma_starts_ordered(s, self.chunk as int, s.len() - 1);
                    }
                    let rel = global_index - s[self.chunk as int].start_index;
                    if rel < s[self.chunk as int].length {
                        lemma_log_index(s, self.chunk as int, rel);
                    }
                }
                let rel_index = global_index - list.node(self.chunk).node_start_index();
                let previous = list.remove_in(self.chunk, rel_index);
                proof {
                    lemma_log_len(list.nodes());
                    lemma_cursor_stays_valid(s, list.nodes(), self@);
                }
                previous
            },
        }
    }

    /// Moves to the end of the log: the first slot that is not reserved. The
    /// cursor owes that slot, so that the next step of an iteration yields
    /// it as soon as it is reserved.
    pub fn drain_forward<T>(&mut self, list: &ConcurrentList<T>)
        requires
            list.wf(),
            old(self)@.wf(list.nodes()),
        ensures
            final(self)@.wf(list.nodes()),
            final(self)@.chunk == list.nodes().len() - 1,
            final(self)@.index == list.nodes().last().length,
            final(self)@.global_index == list@.len(),
            final(self)@.item_owed,
    {
        self.go_to_front_node(list);
        proof {
            lemma_log_len(list.nodes());
            assert(node_wf(list.nodes(), self.chunk as int));
        }
        let node = list.node(self.chunk);
        self.index = node.node_len();
        self.global_index = node.node_start_index() + node.node_len();
        self.item_owed = true;
    }

    /// Moves to the first slot of the log; the cursor owes that slot.
    pub fn drain_backwards<T>(&mut self, list: &ConcurrentList<T>)
        requires
            list.wf(),
            old(self)@.wf(list.nodes()),
        ensures
            final(self)@ == CursorView::at_node(list.nodes(), 0, true),
            final(self)@.global_index == 0,
            final(self)@.wf(list.nodes()),
    {
        self.go_to_back_node(list);
        proof {
            assert(node_wf(list.nodes(), 0));
        }
        self.index = 0;
        self.global_index = 0;
        self.item_owed = true;
    }

    /// Sets whether the next step of an iteration yields the slot under the
    /// cursor before it moves.
    pub fn return_current_elem_on_iteration(&mut self, do_return: bool)
        ensures
            final(self)@ == old(self)@.owing(do_return),
    {
        self.item_owed = do_return;
    }

    /// One step of a forward iteration. Yields the slot at `next_index` and
    /// stands on it, owing nothing; while that slot is not reserved, yields
    /// nothing and stays, so that a later call finds what was appended
    /// meanwhile.
    pub fn next<'a, T>(&mut self, list: &'a ConcurrentList<T>) -> (guard: Option<
        ChunkReadGuard<'a, T>,
    >)
        requires
            list.wf(),
            old(self)@.wf(list.nodes()),
        ensures
            final(self)@.wf(list.nodes()),
            guard.is_some() == (old(self)@.next_index() < list@.len()),
            guard.is_none() ==> final(self)@ == old(self)@,
            guard.is_some() ==> {
                &&& guard.unwrap()@ == list@[old(self)@.next_index() as int]
                &&& final(self)@.global_index == old(self)@.next_index()
                &&& !final(self)@.item_owed
            },
    {
        if self.item_owed {
            let result = self.get(list);
            self.item_owed = result.is_none();
            return result;
        }
        if self.go_next(list).is_err() {
            return None;
        }
        self.get(list)
    }

    /// One step of a backward iteration. Yields the slot at `prev_index` and
    /// stands on it, owing nothing; yields nothing and stays when there is
    /// no slot before the cursor.
    pub fn next_back<'a, T>(&mut self, list: &'a ConcurrentList<T>) -> (guard: Option<
        ChunkReadGuard<'a, T>,
    >)
        requires
            list.wf(),
            old(self)@.wf(list.nodes()),
        ensures
            final(self)@.wf(list.nodes()),
            guard.is_some() == (old(self)@.prev_index(list@.len()) >= 0),
            guard.is_none() ==> final(self)@ == old(self)@,
            guard.is_some() ==> {
                &&& old(self)@.prev_index(list@.len()) < list@.len()
                &&& guard.unwrap()@ == list@[old(self)@.prev_index(list@.len())]
                &&& final(self)@.global_index == old(self)@.prev_index(list@.len())
                &&& !final(self)@.item_owed
            },
    {
        if self.item_owed {
            let result = self.get(list);
            if result.is_some() {
                self.item_owed = false;
                return result;
            }
        }
        if self.go_prev(list).is_err() {
            return None;
        }
        self.item_owed = false;
        self.get(list)
    }
}

} // verus!
