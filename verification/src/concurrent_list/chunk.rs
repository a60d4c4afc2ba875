use vstd::prelude::*;

use super::read_guard::ChunkReadGuard;
use super::write_guard::ChunkWriteGuard;

verus! {

/// A node of the log: a fixed number of slots of which a prefix is reserved.
///
/// Chunks live in an arena, a `Vec<Chunk<T>>` that only grows. A chunk names
/// its neighbours by their place in that arena, so a place stays valid for as
/// long as the arena lives.
pub struct Chunk<T> {
    id: usize,
    start_index: usize,
    data: Vec<Option<T>>,
    length: usize,
    prev: Option<usize>,
    next: Option<usize>,
}

/// What a chunk is, as a mathematical value.
pub struct ChunkView<T> {
    /// The chunk's own place in the arena.
    pub id: nat,
    /// Absolute index of slot 0.
    pub start_index: nat,
    /// Every slot, reserved or not.
    pub slots: Seq<Option<T>>,
    /// How many slots are reserved; they are the first ones.
    pub length: nat,
    /// Place of the chunk before this one.
    pub prev: Option<nat>,
    /// Place of the chunk after this one.
    pub next: Option<nat>,
}

impl<T> ChunkView<T> {
    pub open spec fn capacity(self) -> nat {
        self.slots.len()
    }

    /// The reserved slots, in order.
    pub open spec fn reserved(self) -> Seq<Option<T>> {
        self.slots.take(self.length as int)
    }

    /// A chunk has at least one slot, reserves no more than it has, keeps
    /// every unreserved slot empty, and ends within the range of `usize`.
    pub open spec fn wf(self) -> bool {
        &&& self.slots.len() >= 1
        &&& self.length <= self.slots.len()
        &&& self.id <= self.start_index
        &&& self.start_index + self.slots.len() <= usize::MAX
        &&& forall|k: int| self.length <= k < self.slots.len() ==> (#[trigger] self.slots[k]) is None
    }

    /// The same chunk with slot `k` holding `slot`.
    pub open spec fn with_slot(self, k: int, slot: Option<T>) -> Self {
        ChunkView { slots: self.slots.update(k, slot), ..self }
    }

    /// The same chunk with one more slot reserved.
    pub open spec fn with_reserved(self) -> Self {
        ChunkView { length: self.length + 1, ..self }
    }

    /// The same chunk with `next` as its successor.
    pub open spec fn with_next(self, next: nat) -> Self {
        ChunkView { next: Some(next), ..self }
    }

    /// The empty chunk of `cap` slots that follows `prev`, or that starts a log.
    pub open spec fn fresh(prev: Option<ChunkView<T>>, cap: nat) -> Self {
        ChunkView {
            id: match prev {
                None => 0,
                Some(p) => p.id + 1,
            },
            start_index: match prev {
                None => 0,
                Some(p) => p.start_index + p.capacity(),
            },
            slots: Seq::new(cap, |k: int| None),
            length: 0,
            prev: match prev {
                None => None,
                Some(p) => Some(p.id),
            },
            next: None,
        }
    }
}

impl<T> View for Chunk<T> {
    type V = ChunkView<T>;

    closed spec fn view(&self) -> ChunkView<T> {
        ChunkView {
            id: self.id as nat,
            start_index: self.start_index as nat,
            slots: self.data@,
            length: self.length as nat,
            prev: match self.prev {
                None => None,
                Some(p) => Some(p as nat),
            },
            next: match self.next {
                None => None,
                Some(n) => Some(n as nat),
            },
        }
    }
}

/// The chunks of an arena as mathematical values.
pub open spec fn chain<T>(nodes: Seq<Chunk<T>>) -> Seq<ChunkView<T>> {
    nodes.map_values(|c: Chunk<T>| c@)
}

/// What holds of the chunk at place `i` of a well-formed chain: it is a valid
/// chunk of the common capacity, it sits where it says, it starts where the
/// chunk before it ends, its links name its neighbours, and it is full unless
/// it is the last one.
pub open spec fn node_wf<T>(s: Seq<ChunkView<T>>, i: int) -> bool {
    let c = s[i];
    &&& c.wf()
    &&& c.capacity() == s[0].capacity()
    &&& c.id == i
    &&& c.start_index == (if i == 0 {
        0
    } else {
        s[i - 1].start_index + s[i - 1].capacity()
    })
    &&& c.prev == (if i == 0 {
        None
    } else {
        Some((i - 1) as nat)
    })
    &&& c.next == (if i + 1 < s.len() {
        Some((i + 1) as nat)
    } else {
        None
    })
    &&& (i + 1 < s.len() ==> c.length == c.capacity())
}

/// A well-formed chain: one chunk at least, and every one of them in order.
pub open spec fn chain_wf<T>(s: Seq<ChunkView<T>>) -> bool {
    &&& s.len() >= 1
    &&& forall|i: int| 0 <= i < s.len() ==> #[trigger] node_wf(s, i)
}

/// The reserved slots of the first `upto` chunks, one chunk after the other.
pub open spec fn prefix_view<T>(s: Seq<ChunkView<T>>, upto: nat) -> Seq<Option<T>>
    decreases upto,
{
    if upto == 0 {
        Seq::empty()
    } else {
        prefix_view(s, (upto - 1) as nat) + s[upto - 1].reserved()
    }
}

/// The log that a chain holds: every reserved slot, by absolute index.
pub open spec fn log_view<T>(s: Seq<ChunkView<T>>) -> Seq<Option<T>> {
    prefix_view(s, s.len())
}

/// In a well-formed chain the first `upto` chunks hold as many slots as the
/// last of them ends at.
pub proof fn lemma_prefix_len<T>(s: Seq<ChunkView<T>>, upto: nat)
    requires
        chain_wf(s),
        upto <= s.len(),
    ensures
        prefix_view(s, upto).len() == (if upto == 0 {
            0
        } else {
            s[upto - 1].start_index + s[upto - 1].length
        }),
    decreases upto,
{
    if upto > 0 {
        lemma_prefix_len(s, (upto - 1) as nat);
        assert(node_wf(s, upto - 1));
        if upto > 1 {
            assert(node_wf(s, upto - 2));
        }
    }
}

/// The length of the log is where the last chunk's reserved slots end.
pub proof fn lemma_log_len<T>(s: Seq<ChunkView<T>>)
    requires
        chain_wf(s),
    ensures
        log_view(s).len() == s.last().start_index + s.last().length,
{
    lemma_prefix_len(s, s.len());
}

/// Later chunks start later: chunk `j` starts no earlier than chunk `i` ends.
pub proof fn lemma_starts_ordered<T>(s: Seq<ChunkView<T>>, i: int, j: int)
    requires
        chain_wf(s),
        0 <= i < j < s.len(),
    ensures
        s[i].start_index + s[i].capacity() <= s[j].start_index,
        s[i].length == s[i].capacity(),
    decreases j - i,
{
    assert(node_wf(s, i));
    assert(node_wf(s, j));
    if i + 1 < j {
        lemma_starts_ordered(s, i, j - 1);
        assert(node_wf(s, j - 1));
    }
}

/// Slot `k` of chunk `i`, once reserved, is entry `start_index + k` of the log.
pub proof fn lemma_log_index<T>(s: Seq<ChunkView<T>>, i: int, k: int)
    requires
        chain_wf(s),
        0 <= i < s.len(),
        0 <= k < s[i].length,
    ensures
        s[i].start_index + k < log_view(s).len(),
        log_view(s)[s[i].start_index + k] == s[i].slots[k],
{
    lemma_prefix_index(s, s.len(), i, k);
}

proof fn lemma_prefix_index<T>(s: Seq<ChunkView<T>>, upto: nat, i: int, k: int)
    requires
        chain_wf(s),
        0 <= i < upto <= s.len(),
        0 <= k < s[i].length,
    ensures
        s[i].start_index + k < prefix_view(s, upto).len(),
        prefix_view(s, upto)[s[i].start_index + k] == s[i].slots[k],
    decreases upto,
{
    lemma_prefix_len(s, upto);
    lemma_prefix_len(s, (upto - 1) as nat);
    assert(node_wf(s, upto - 1));
    assert(node_wf(s, i));
    if i == upto - 1 {
        if upto > 1 {
            assert(node_wf(s, upto - 2));
        }
    } else {
        lemma_prefix_index(s, (upto - 1) as nat, i, k);
        lemma_starts_ordered(s, i, upto - 1);
    }
}

/// Two chains whose first `upto` chunks reserve the same slots hold the same
/// entries there.
pub proof fn lemma_prefix_agree<T>(s: Seq<ChunkView<T>>, t: Seq<ChunkView<T>>, upto: nat)
    requires
        upto <= s.len(),
        upto <= t.len(),
        forall|i: int| 0 <= i < upto ==> (#[trigger] s[i]).reserved() == t[i].reserved(),
    ensures
        prefix_view(s, upto) == prefix_view(t, upto),
    decreases upto,
{
    if upto > 0 {
        lemma_prefix_agree(s, t, (upto - 1) as nat);
    }
}

/// The first `c` chunks of a well-formed chain hold as many slots as chunk
/// `c` starts at.
pub proof fn lemma_prefix_len_start<T>(s: Seq<ChunkView<T>>, c: int)
    requires
        chain_wf(s),
        0 <= c < s.len(),
    ensures
        prefix_view(s, c as nat).len() == s[c].start_index,
{
    lemma_prefix_len(s, c as nat);
    assert(node_wf(s, c));
    if c > 0 {
        assert(node_wf(s, c - 1));
    }
}

/// Installing an empty chunk after the last one leaves the log as it was.
pub proof fn lemma_log_install<T>(s: Seq<ChunkView<T>>, t: Seq<ChunkView<T>>)
    requires
        chain_wf(s),
        t == s.update(s.len() - 1, s.last().with_next(s.len())).push(
            ChunkView::fresh(Some(s.last()), s.last().capacity()),
        ),
    ensures
        log_view(t) == log_view(s),
{
    let n = s.len();
    assert forall|i: int| 0 <= i < n implies (#[trigger] s[i]).reserved() == t[i].reserved() by {}
    lemma_prefix_agree(s, t, n);
    assert(t[n as int].reserved() =~= Seq::<Option<T>>::empty());
    assert(prefix_view(t, (n + 1) as nat) =~= prefix_view(t, n));
}

/// Reserving one more slot happens in the last chunk and adds one empty
/// entry at the end of the log.
pub proof fn lemma_log_reserve<T>(s: Seq<ChunkView<T>>, c: int)
    requires
        chain_wf(s),
        0 <= c < s.len(),
        s[c].length < s[c].capacity(),
    ensures
        c == s.len() - 1,
        log_view(s.update(c, s[c].with_reserved())) == log_view(s).push(None),
{
    let n = s.len();
    let t = s.update(c, s[c].with_reserved());
    assert(node_wf(s, c));
    assert forall|i: int| 0 <= i < n - 1 implies (#[trigger] s[i]).reserved() == t[i].reserved() by {}
    lemma_prefix_agree(s, t, (n - 1) as nat);
    let len = s[c].length as int;
    assert(s[c].slots[len] is None);
    assert(t[c].reserved() =~= s[c].reserved().push(None));
    assert(prefix_view(t, n) =~= prefix_view(s, n).push(None));
}

proof fn lemma_prefix_store<T>(s: Seq<ChunkView<T>>, c: int, k: int, v: Option<T>, upto: nat)
    requires
        chain_wf(s),
        0 <= c < s.len(),
        0 <= k < s[c].length,
        upto <= s.len(),
    ensures
        prefix_view(s.update(c, s[c].with_slot(k, v)), upto) == (if upto > c {
            prefix_view(s, upto).update(s[c].start_index + k, v)
        } else {
            prefix_view(s, upto)
        }),
    decreases upto,
{
    let t = s.update(c, s[c].with_slot(k, v));
    assert(t.len() == s.len());
    assert(t[c] == s[c].with_slot(k, v));
    assert(node_wf(s, c));
    if upto <= c {
        assert forall|i: int| 0 <= i < upto implies (#[trigger] s[i]).reserved() == t[i].reserved() by {}
        lemma_prefix_agree(s, t, upto);
    } else {
        lemma_prefix_store(s, c, k, v, (upto - 1) as nat);
        lemma_prefix_len_start(s, c);
        lemma_prefix_len(s, (upto - 1) as nat);
        if upto == c + 1 {
            assert(t[c].reserved() =~= s[c].reserved().update(k, v));
            assert(prefix_view(t, upto) =~= prefix_view(s, upto).update(s[c].start_index + k, v));
        } else {
            if upto - 2 > c {
                lemma_starts_ordered(s, c, upto - 2);
            }
            assert(node_wf(s, upto - 2));
            assert(t[upto - 1].reserved() == s[upto - 1].reserved());
            assert(prefix_view(t, upto) =~= prefix_view(s, upto).update(s[c].start_index + k, v));
        }
    }
}

/// Replacing what reserved slot `k` of chunk `c` holds replaces entry
/// `start_index + k` of the log and nothing else.
pub proof fn lemma_log_store<T>(s: Seq<ChunkView<T>>, c: int, k: int, v: Option<T>)
    requires
        chain_wf(s),
        0 <= c < s.len(),
        0 <= k < s[c].length,
    ensures
        chain_wf(s.update(c, s[c].with_slot(k, v))),
        s[c].start_index + k < log_view(s).len(),
        log_view(s.update(c, s[c].with_slot(k, v))) == log_view(s).update(
            s[c].start_index + k,
            v,
        ),
{
    let t = s.update(c, s[c].with_slot(k, v));
    lemma_prefix_store(s, c, k, v, s.len());
    lemma_log_index(s, c, k);
    assert(node_wf(s, 0));
    assert forall|i: int| 0 <= i < t.len() implies #[trigger] node_wf(t, i) by {
        assert(node_wf(s, i));
        if i > 0 {
            assert(node_wf(s, i - 1));
        }
    }
}

/// The progress of one append through the log. Every step reads or changes
/// shared state once, so that the steps of several appends may be taken in
/// any order.
pub enum Appender<T> {
    /// About to read how many slots of `chunk` are reserved.
    Start { chunk: usize, val: T },
    /// Read `len` reserved slots in `chunk`, fewer than it has; about to claim slot `len`.
    Observed { chunk: usize, len: usize, val: T },
    /// Found `chunk` full; about to look for its successor.
    Full { chunk: usize, val: T },
    /// Found `chunk` full and last; about to install a fresh successor.
    Install { chunk: usize, val: T },
    /// Owns slot `slot` of `chunk`; about to store the value there.
    Reserved { chunk: usize, slot: usize, val: T },
    /// The value is stored at absolute index `index`.
    Done { index: usize },
}

/// Whether an appender's state is one that it can have reached on chain `s`.
pub open spec fn appender_wf<T>(s: Seq<ChunkView<T>>, a: Appender<T>) -> bool {
    match a {
        Appender::Start { chunk, .. } => chunk < s.len(),
        Appender::Observed { chunk, len, .. } => chunk < s.len() && len < s[chunk as int].capacity()
            && len <= s[chunk as int].length,
        Appender::Full { chunk, .. } => chunk < s.len() && s[chunk as int].length
            == s[chunk as int].capacity(),
        Appender::Install { chunk, .. } => chunk < s.len() && s[chunk as int].length
            == s[chunk as int].capacity(),
        Appender::Reserved { chunk, slot, .. } => chunk < s.len() && slot < s[chunk as int].length,
        Appender::Done { .. } => true,
    }
}

/// Whether the chain has index space left for one more chunk after its last.
pub open spec fn has_room<T>(s: Seq<ChunkView<T>>) -> bool {
    s.last().start_index + 2 * s.last().capacity() <= usize::MAX
}

/// One step of an append on chain `s`: the chain and the appender afterwards.
///
/// - `Start` reads the chunk's length and goes on to claim a slot or, if the
///   chunk is full, to look further.
/// - `Observed` claims the slot it saw as first free, if it still is; if
///   another append took it, it reads the length again.
/// - `Full` follows the chunk's successor, or sets out to install one.
/// - `Install` appends a fresh chunk if there still is no successor and moves
///   there; if another append installed one meanwhile, the fresh chunk is
///   dropped and the chunk is read again.
/// - `Reserved` stores the value in its slot and is done.
pub open spec fn step<T>(s: Seq<ChunkView<T>>, a: Appender<T>) -> (Seq<ChunkView<T>>, Appender<T>) {
    match a {
        Appender::Start { chunk, val } => {
            let c = s[chunk as int];
            if c.length >= c.capacity() {
                (s, Appender::Full { chunk, val })
            } else {
                (s, Appender::Observed { chunk, len: c.length as usize, val })
            }
        },
        Appender::Observed { chunk, len, val } => {
            let c = s[chunk as int];
            if c.length == len {
                (s.update(chunk as int, c.with_reserved()), Appender::Reserved { chunk, slot: len, val })
            } else {
                (s, Appender::Start { chunk, val })
            }
        },
        Appender::Full { chunk, val } => {
            match s[chunk as int].next {
                Some(n) => (s, Appender::Start { chunk: n as usize, val }),
                None => (s, Appender::Install { chunk, val }),
            }
        },
        Appender::Install { chunk, val } => {
            let c = s[chunk as int];
            match c.next {
                None => (
                    s.update(chunk as int, c.with_next(s.len())).push(
                        ChunkView::fresh(Some(c), c.capacity()),
                    ),
                    Appender::Start { chunk: s.len() as usize, val },
                ),
                Some(_) => (s, Appender::Start { chunk, val }),
            }
        },
        Appender::Reserved { chunk, slot, val } => {
            let c = s[chunk as int];
            (
                s.update(chunk as int, c.with_slot(slot as int, Some(val))),
                Appender::Done { index: (c.start_index + slot) as usize },
            )
        },
        Appender::Done { index } => (s, a),
    }
}

/// A step keeps a well-formed chain well-formed and the appender valid on it.
pub proof fn lemma_step_wf<T>(s: Seq<ChunkView<T>>, a: Appender<T>)
    requires
        chain_wf(s),
        appender_wf(s, a),
        has_room(s),
    ensures
        chain_wf(step(s, a).0),
        appender_wf(step(s, a).0, step(s, a).1),
        step(s, a).0.len() >= s.len(),
        step(s, a).0[0].capacity() == s[0].capacity(),
{
    let t = step(s, a).0;
    assert(node_wf(s, 0));
    match a {
        Appender::Start { chunk, val } => {
            assert(node_wf(s, chunk as int));
        },
        Appender::Observed { chunk, len, val } => {
            assert(node_wf(s, chunk as int));
            if s[chunk as int].length == len {
                assert forall|i: int| 0 <= i < t.len() implies #[trigger] node_wf(t, i) by {
                    assert(node_wf(s, i));
                    if i > 0 {
                        assert(node_wf(s, i - 1));
                    }
                }
            }
        },
        Appender::Full { chunk, val } => {
            assert(node_wf(s, chunk as int));
        },
        Appender::Install { chunk, val } => {
            assert(node_wf(s, chunk as int));
            if s[chunk as int].next is None {
                assert(chunk + 1 == s.len());
                assert forall|i: int| 0 <= i < t.len() implies #[trigger] node_wf(t, i) by {
                    if i < s.len() {
                        assert(node_wf(s, i));
                        if i > 0 {
                            assert(node_wf(s, i - 1));
                        }
                    }
                }
            }
        },
        Appender::Reserved { chunk, slot, val } => {
            assert(node_wf(s, chunk as int));
            assert forall|i: int| 0 <= i < t.len() implies #[trigger] node_wf(t, i) by {
                assert(node_wf(s, i));
                if i > 0 {
                    assert(node_wf(s, i - 1));
                }
            }
        },
        Appender::Done { index } => {},
    }
}

/// In a well-formed chain the links agree with each other and with the
/// start indices: the successor of a chunk has that chunk as its
/// predecessor and the other way round, the first chunk starts at 0, and
/// every other starts where its predecessor ends.
pub proof fn lemma_links_consistent<T>(s: Seq<ChunkView<T>>, i: int)
    requires
        chain_wf(s),
        0 <= i < s.len(),
    ensures
        s[i].next matches Some(n) ==> n < s.len() && s[n as int].prev == Some(i as nat),
        s[i].prev matches Some(p) ==> p < s.len() && s[p as int].next == Some(i as nat)
            && s[i].start_index == s[p as int].start_index + s[p as int].capacity(),
        s[i].prev is None ==> s[i].start_index == 0,
{
    assert(node_wf(s, i));
    if i + 1 < s.len() {
        assert(node_wf(s, i + 1));
    }
    if i > 0 {
        assert(node_wf(s, i - 1));
    }
}

/// A step of an append takes nothing back: no chunk goes away or moves, no
/// chunk has fewer slots reserved afterwards, and a slot that held a value
/// holds the same value still, as long as the slot that the appender has
/// made its own is still empty.
pub proof fn lemma_step_grows<T>(s: Seq<ChunkView<T>>, a: Appender<T>, i: int, k: int)
    requires
        chain_wf(s),
        appender_wf(s, a),
        0 <= i < s.len(),
        0 <= k < s[i].capacity(),
        a matches Appender::Reserved { chunk, slot, .. } ==> s[chunk as int].slots[slot as int] is None,
    ensures
        i < step(s, a).0.len(),
        step(s, a).0[i].start_index == s[i].start_index,
        step(s, a).0[i].capacity() == s[i].capacity(),
        step(s, a).0[i].length >= s[i].length,
        s[i].slots[k] is Some ==> step(s, a).0[i].slots[k] == s[i].slots[k],
{
    match a {
        Appender::Reserved { chunk, slot, val } => {
            assert(node_wf(s, chunk as int));
        },
        _ => {},
    }
}

/// How many full chunks stand at or after place `c`.
pub open spec fn full_from<T>(s: Seq<ChunkView<T>>, c: int) -> nat {
    let behind = if s.last().length == s.last().capacity() {
        1nat
    } else {
        0nat
    };
    ((s.len() - 1 - c) as nat) + behind
}

/// How many steps an append still takes when no other append interferes.
pub open spec fn steps_left<T>(s: Seq<ChunkView<T>>, a: Appender<T>) -> nat {
    match a {
        Appender::Start { chunk, .. } => 3 * full_from(s, chunk as int) + 3,
        Appender::Full { chunk, .. } => 3 * full_from(s, chunk as int) + 2,
        Appender::Install { chunk, .. } => 3 * full_from(s, chunk as int) + 1,
        Appender::Observed { .. } => 2,
        Appender::Reserved { .. } => 1,
        Appender::Done { .. } => 0,
    }
}

/// What holds of an append of `val` that runs alone on a log that held `log0`
/// when it began: until a slot is claimed the log is unchanged, the claimed
/// slot is the first after `log0`, and in the end the log is `log0` with `val`
/// appended.
pub open spec fn alone<T>(log0: Seq<Option<T>>, val: T, s: Seq<ChunkView<T>>, a: Appender<T>) -> bool {
    &&& chain_wf(s)
    &&& appender_wf(s, a)
    &&& match a {
        Appender::Start { chunk, val: v } => v == val && log_view(s) == log0 && (has_room(s) || (
            chunk == s.len() - 1 && s.last().length == 0)),
        Appender::Full { chunk, val: v } => v == val && log_view(s) == log0 && has_room(s),
        Appender::Install { chunk, val: v } => v == val && log_view(s) == log0 && has_room(s)
            && chunk == s.len() - 1,
        Appender::Observed { chunk, len, val: v } => v == val && log_view(s) == log0 && len
            == s[chunk as int].length,
        Appender::Reserved { chunk, slot, val: v } => v == val && log_view(s) == log0.push(None)
            && s[chunk as int].start_index + slot == log0.len(),
        Appender::Done { index } => log_view(s) == log0.push(Some(val)) && index == log0.len(),
    }
}

/// A step of an append that runs alone keeps `alone` and brings the append
/// nearer to its end.
pub proof fn lemma_step_alone<T>(log0: Seq<Option<T>>, val: T, s: Seq<ChunkView<T>>, a: Appender<T>)
    requires
        alone(log0, val, s, a),
        !(a is Done),
    ensures
        alone(log0, val, step(s, a).0, step(s, a).1),
        steps_left(step(s, a).0, step(s, a).1) < steps_left(s, a),
{
    let t = step(s, a).0;
    let b = step(s, a).1;
    assert(node_wf(s, 0));
    assert(node_wf(s, s.len() - 1));
    match a {
        Appender::Start { chunk, val: v } => {
            assert(node_wf(s, chunk as int));
            lemma_step_wf_at(s, a);
        },
        Appender::Full { chunk, val: v } => {
            assert(node_wf(s, chunk as int));
            lemma_step_wf(s, a);
        },
        Appender::Install { chunk, val: v } => {
            assert(node_wf(s, chunk as int));
            lemma_step_wf(s, a);
            if s[chunk as int].next is None {
                lemma_log_install(s, t);
            }
        },
        Appender::Observed { chunk, len, val: v } => {
            assert(node_wf(s, chunk as int));
            lemma_step_wf_at(s, a);
            lemma_log_reserve(s, chunk as int);
            lemma_log_len(s);
        },
        Appender::Reserved { chunk, slot, val: v } => {
            assert(node_wf(s, chunk as int));
            lemma_step_wf_at(s, a);
            lemma_log_store(s, chunk as int, slot as int, Some(val));
            assert(log0.push(None).update(log0.len() as int, Some(val)) =~= log0.push(Some(val)));
        },
        Appender::Done { index } => {},
    }
}

/// A step that installs no chunk keeps the chain well-formed, room or no room.
pub proof fn lemma_step_wf_at<T>(s: Seq<ChunkView<T>>, a: Appender<T>)
    requires
        chain_wf(s),
        appender_wf(s, a),
        !(a is Install),
    ensures
        chain_wf(step(s, a).0),
        appender_wf(step(s, a).0, step(s, a).1),
        step(s, a).0.len() == s.len(),
        step(s, a).0[0].capacity() == s[0].capacity(),
{
    let t = step(s, a).0;
    assert(node_wf(s, 0));
    match a {
        Appender::Start { chunk, val } => {
            assert(node_wf(s, chunk as int));
        },
        Appender::Observed { chunk, len, val } => {
            assert(node_wf(s, chunk as int));
            if s[chunk as int].length == len {
                assert forall|i: int| 0 <= i < t.len() implies #[trigger] node_wf(t, i) by {
                    assert(node_wf(s, i));
                    if i > 0 {
                        assert(node_wf(s, i - 1));
                    }
                }
            }
        },
        Appender::Full { chunk, val } => {
            assert(node_wf(s, chunk as int));
        },
        Appender::Install { chunk, val } => {},
        Appender::Reserved { chunk, slot, val } => {
            assert(node_wf(s, chunk as int));
            assert forall|i: int| 0 <= i < t.len() implies #[trigger] node_wf(t, i) by {
                assert(node_wf(s, i));
                if i > 0 {
                    assert(node_wf(s, i - 1));
                }
            }
        },
        Appender::Done { index } => {},
    }
}

impl<T> Chunk<T> {
    pub fn node_len(&self) -> (len: usize)
        ensures
            len == self@.length,
    {
        self.length
    }

    pub fn node_capacity(&self) -> (cap: usize)
        ensures
            cap == self@.capacity(),
    {
        self.data.len()
    }

    pub fn node_start_index(&self) -> (start: usize)
        ensures
            start == self@.start_index,
    {
        self.start_index
    }

    /// The chunk's own place in the arena.
    pub fn node_id(&self) -> (id: usize)
        ensures
            id == self@.id,
    {
        self.id
    }

    /// Place of the chunk after this one, if one was installed.
    pub fn next_node(&self) -> (next: Option<usize>)
        ensures
            next.is_some() == self@.next.is_some(),
            next.is_some() ==> next.unwrap() == self@.next.unwrap(),
    {
        self.next
    }

    /// Place of the chunk before this one, if there is one.
    pub fn prev_node(&self) -> (prev: Option<usize>)
        ensures
            prev.is_some() == self@.prev.is_some(),
            prev.is_some() ==> prev.unwrap() == self@.prev.unwrap(),
    {
        self.prev
    }

    /// An empty chunk of `cap` slots: the first of a log, or the one after `prev`.
    pub fn new(prev: Option<&Chunk<T>>, cap: usize) -> (chunk: Self)
        requires
            cap > 0,
            prev.is_some() ==> prev.unwrap()@.wf() && prev.unwrap()@.start_index
                + prev.unwrap()@.capacity() + cap <= usize::MAX,
        ensures
            chunk@ == ChunkView::fresh(
                match prev {
                    None => None,
                    Some(p) => Some(p@),
                },
                cap as nat,
            ),
            chunk@.wf(),
    {
        let mut data: Vec<Option<T>> = Vec::with_capacity(cap);
        let mut k: usize = 0;
        while k < cap
            invariant
                k <= cap,
                data@.len() == k,
                forall|j: int| 0 <= j < k ==> (#[trigger] data@[j]) is None,
            decreases cap - k,
        {
            data.push(None);
            k = k + 1;
        }
        let chunk = match prev {
            None => Self { id: 0, start_index: 0, data, length: 0, prev: None, next: None },
            Some(p) => Self {
                id: p.id + 1,
                start_index: p.start_index + p.data.len(),
                data,
                length: 0,
                prev: Some(p.id),
                next: None,
            },
        };
        proof {
            assert(chunk@.slots =~= Seq::new(cap as nat, |k: int| None::<T>));
        }
        chunk
    }

    /// Reads slot `rel_index`: nothing if that slot is not reserved, else a
    /// guard on what it holds.
    pub fn at<'a>(&'a self, rel_index: usize) -> (guard: Option<ChunkReadGuard<'a, T>>)
        requires
            self@.wf(),
        ensures
            guard.is_some() == (rel_index < self@.length),
            guard.is_some() ==> guard.unwrap()@ == self@.slots[rel_index as int],
    {
        if rel_index >= self.node_len() {
            return None;
        }
        Some(ChunkReadGuard::from_rwlock(&self.data[rel_index]))
    }

    /// Opens slot `rel_index` for writing: nothing if that slot is not
    /// reserved, else a guard through which the slot is read and replaced.
    pub fn at_mut<'a>(&'a mut self, rel_index: usize) -> (guard: Option<ChunkWriteGuard<'a, T>>)
        requires
            old(self)@.wf(),
        ensures
            guard.is_some() == (rel_index < old(self)@.length),
            guard.is_some() ==> guard.unwrap()@ == old(self)@.slots[rel_index as int],
            guard.is_some() ==> final(self)@ == old(self)@.with_slot(
                rel_index as int,
                *final(guard.unwrap().inner_lock),
            ),
            guard.is_none() ==> final(self)@ == old(self)@,
    {
        if rel_index >= self.node_len() {
            return None;
        }
        Some(ChunkWriteGuard::from_rwlock(&mut self.data[rel_index]))
    }

    /// Tombstones slot `rel_index` and hands out what it held. Nothing moves.
    pub fn remove_at(&mut self, rel_index: usize) -> (previous: Option<T>)
        requires
            old(self)@.wf(),
        ensures
            final(self)@.wf(),
            rel_index < old(self)@.length ==> previous == old(self)@.slots[rel_index as int]
                && final(self)@ == old(self)@.with_slot(rel_index as int, None),
            rel_index >= old(self)@.length ==> previous.is_none() && final(self)@ == old(self)@,
    {
        if rel_index >= self.node_len() {
            return None;
        }
        let mut result = None;
        std::mem::swap(&mut self.data[rel_index], &mut result);
        result
    }

    /// Takes one more slot: the atomic step that makes slot `length` this
    /// appender's own.
    fn reserve(&mut self)
        requires
            old(self)@.length < old(self)@.capacity(),
        ensures
            final(self)@ == old(self)@.with_reserved(),
    {
        if self.length < self.data.len() {
            self.length = self.length + 1;
        }
    }

    /// Stores `val` in slot `slot`.
    fn store(&mut self, slot: usize, val: T)
        requires
            slot < old(self)@.capacity(),
        ensures
            final(self)@ == old(self)@.with_slot(slot as int, Some(val)),
    {
        self.data[slot] = Some(val);
    }

    /// Names the chunk at place `place` as this chunk's successor.
    fn link_next(&mut self, place: usize)
        ensures
            final(self)@ == old(self)@.with_next(place as nat),
    {
        self.next = Some(place);
    }

    /// Takes one step of an append on the arena `nodes`, as `step` describes it.
    pub fn push_step(nodes: &mut Vec<Chunk<T>>, appender: Appender<T>) -> (next: Appender<T>)
        requires
            chain_wf(chain(old(nodes)@)),
            appender_wf(chain(old(nodes)@), appender),
            appender is Install ==> has_room(chain(old(nodes)@)),
        ensures
            chain(final(nodes)@) == step(chain(old(nodes)@), appender).0,
            next == step(chain(old(nodes)@), appender).1,
            chain_wf(chain(final(nodes)@)),
            appender_wf(chain(final(nodes)@), next),
    {
        let ghost s = chain(nodes@);
        proof {
            assert(node_wf(s, 0));
            if appender is Install {
                lemma_step_wf(s, appender);
            } else {
                lemma_step_wf_at(s, appender);
            }
        }
        match appender {
            Appender::Start { chunk, val } => {
                proof {
                    assert(node_wf(s, chunk as int));
                }
                let len = nodes[chunk].node_len();
                if len >= nodes[chunk].node_capacity() {
                    Appender::Full { chunk, val }
                } else {
                    Appender::Observed { chunk, len, val }
                }
            },
            Appender::Observed { chunk, len, val } => {
                proof {
                    assert(node_wf(s, chunk as int));
                }
                if nodes[chunk].node_len() == len {
                    nodes[chunk].reserve();
                    proof {
                        assert(chain(nodes@) =~= step(s, appender).0);
                    }
                    Appender::Reserved { chunk, slot: len, val }
                } else {
                    Appender::Start { chunk, val }
                }
            },
            Appender::Full { chunk, val } => {
                proof {
                    assert(node_wf(s, chunk as int));
                }
                match nodes[chunk].next_node() {
                    Some(n) => Appender::Start { chunk: n, val },
                    None => Appender::Install { chunk, val },
                }
            },
            Appender::Install { chunk, val } => {
                proof {
                    assert(node_wf(s, chunk as int));
                    assert(node_wf(s, s.len() - 1));
                    if chunk + 1 < s.len() {
                        lemma_starts_ordered(s, chunk as int, s.len() - 1);
                    }
                }
                let fresh = Chunk::new(Some(&nodes[chunk]), nodes[chunk].node_capacity());
                match nodes[chunk].next_node() {
                    None => {
                        let place = nodes.len();
                        nodes[chunk].link_next(place);
                        nodes.push(fresh);
                        proof {
                            assert(chain(nodes@) =~= step(s, appender).0);
                        }
                        Appender::Start { chunk: place, val }
                    },
                    Some(_) => Appender::Start { chunk, val },
                }
            },
            Appender::Reserved { chunk, slot, val } => {
                proof {
                    assert(node_wf(s, chunk as int));
                }
                let index = nodes[chunk].node_start_index() + slot;
                nodes[chunk].store(slot, val);
                proof {
                    assert(chain(nodes@) =~= step(s, appender).0);
                }
                Appender::Done { index }
            },
            Appender::Done { index } => Appender::Done { index },
        }
    }

    /// Appends `val` to the log, starting the search for a free slot at the
    /// chunk at place `start`, and returns the absolute index it was given.
    pub fn push(nodes: &mut Vec<Chunk<T>>, start: usize, val: T) -> (index: usize)
        requires
            chain_wf(chain(old(nodes)@)),
            start < old(nodes)@.len(),
            has_room(chain(old(nodes)@)),
        ensures
            chain_wf(chain(final(nodes)@)),
            log_view(chain(final(nodes)@)) == log_view(chain(old(nodes)@)).push(Some(val)),
            index == log_view(chain(old(nodes)@)).len(),
            final(nodes)@.len() >= old(nodes)@.len(),
            chain(final(nodes)@)[0].capacity() == chain(old(nodes)@)[0].capacity(),
    {
        let ghost s0 = chain(nodes@);
        let ghost log0 = log_view(s0);
        let mut appender = Appender::Start { chunk: start, val };
        loop
            invariant_except_break
                !(appender is Done),
            invariant
                alone(log0, val, chain(nodes@), appender),
                nodes@.len() >= s0.len(),
                chain(nodes@)[0].capacity() == s0[0].capacity(),
            ensures
                chain_wf(chain(nodes@)),
                appender is Done,
                alone(log0, val, chain(nodes@), appender),
                nodes@.len() >= s0.len(),
                chain(nodes@)[0].capacity() == s0[0].capacity(),
            decreases steps_left(chain(nodes@), appender),
        {
            proof {
                lemma_step_alone(log0, val, chain(nodes@), appender);
                if appender is Install {
                    lemma_step_wf(chain(nodes@), appender);
                } else {
                    lemma_step_wf_at(chain(nodes@), appender);
                }
            }
            appender = Chunk::push_step(nodes, appender);
            if let Appender::Done { .. } = appender {
                break;
            }
        }
        match appender {
            Appender::Done { index } => index,
            _ => 0,
        }
    }

    /// How many slots are reserved in the chunk at place `at` and in all
    /// chunks after it.
    pub fn front_elems_count(nodes: &Vec<Chunk<T>>, at: usize) -> (count: usize)
        requires
            chain_wf(chain(nodes@)),
            at < nodes@.len(),
        ensures
            count == log_view(chain(nodes@)).len() - chain(nodes@)[at as int].start_index,
    {
        let ghost s = chain(nodes@);
        let mut place = at;
        let mut count: usize = 0;
        proof {
            assert(node_wf(s, at as int));
        }
        loop
            invariant_except_break
                count + s[at as int].start_index == s[place as int].start_index,
            invariant
                s == chain(nodes@),
                chain_wf(s),
                at <= place < s.len(),
            ensures
                count == log_view(s).len() - s[at as int].start_index,
            decreases s.len() - place,
        {
            proof {
                assert(node_wf(s, place as int));
                lemma_log_len(s);
                if place + 1 < s.len() {
                    assert(node_wf(s, place + 1));
                    lemma_starts_ordered(s, place as int, s.len() - 1);
                }
            }
            count = count + nodes[place].node_len();
            match nodes[place].next_node() {
                None => {
                    break;
                },
                Some(next) => {
                    place = next;
                },
            }
        }
        count
    }

    /// How many chunks stand at place `at` or after it.
    pub fn front_nodes_count(nodes: &Vec<Chunk<T>>, at: usize) -> (count: usize)
        requires
            chain_wf(chain(nodes@)),
            at < nodes@.len(),
        ensures
            count == nodes@.len() - at,
    {
        let ghost s = chain(nodes@);
        let total = nodes.len();
        let mut place = at;
        let mut count: usize = 1;
        loop
            invariant
                total == s.len(),
                s == chain(nodes@),
                chain_wf(s),
                at <= place < s.len(),
                count == place - at + 1,
            ensures
                count == s.len() - at,
            decreases s.len() - place,
        {
            proof {
                assert(node_wf(s, place as int));
            }
            match nodes[place].next_node() {
                None => {
                    break;
                },
                Some(next) => {
                    place = next;
                    count = count + 1;
                },
            }
        }
        count
    }

    /// How many slots are reserved in the chunks before place `at`.
    pub fn back_elems_count(nodes: &Vec<Chunk<T>>, at: usize) -> (count: usize)
        requires
            chain_wf(chain(nodes@)),
            at < nodes@.len(),
        ensures
            count == chain(nodes@)[at as int].start_index,
    {
        let ghost s = chain(nodes@);
        let mut place = at;
        let mut count: usize = 0;
        proof {
            assert(node_wf(s, at as int));
        }
        loop
            invariant
                s == chain(nodes@),
                chain_wf(s),
                place <= at < s.len(),
                count + s[place as int].start_index == s[at as int].start_index,
            ensures
                count == s[at as int].start_index,
            decreases place,
        {
            proof {
                assert(node_wf(s, place as int));
                assert(node_wf(s, at as int));
                if place > 0 {
                    assert(node_wf(s, place - 1));
                }
            }
            match nodes[place].prev_node() {
                None => {
                    break;
                },
                Some(prev) => {
                    count = count + nodes[prev].node_len();
                    place = prev;
                },
            }
        }
        count
    }

    /// How many chunks stand before place `at`.
    pub fn back_nodes_count(nodes: &Vec<Chunk<T>>, at: usize) -> (count: usize)
        requires
            chain_wf(chain(nodes@)),
            at < nodes@.len(),
        ensures
            count == at,
    {
        let ghost s = chain(nodes@);
        let mut place = at;
        let mut count: usize = 0;
        loop
            invariant
                s == chain(nodes@),
                chain_wf(s),
                place <= at < s.len(),
                count == at - place,
            ensures
                count == at,
            decreases place,
        {
            proof {
                assert(node_wf(s, place as int));
            }
            match nodes[place].prev_node() {
                None => {
                    break;
                },
                Some(prev) => {
                    place = prev;
                    count = count + 1;
                },
            }
        }
        count
    }
}

} // verus!
