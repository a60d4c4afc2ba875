//! Appends whose steps interleave. Each append goes through the states of
//! [`Appender`]; a schedule says whose step comes next. What is proved here
//! holds of every schedule.

use vstd::prelude::*;

use super::chunk::{
    appender_wf, chain_wf, has_room, lemma_log_install, lemma_log_len, lemma_log_reserve,
    lemma_log_store, lemma_step_wf, lemma_step_wf_at, log_view, node_wf, step, Appender,
    ChunkView,
};

verus! {

/// One chain and the appends that are in flight on it.
pub struct World<T> {
    pub chain: Seq<ChunkView<T>>,
    pub appenders: Seq<Appender<T>>,
}

/// The world after appender `who` has taken its next step.
pub open spec fn world_step<T>(w: World<T>, who: int) -> World<T> {
    World {
        chain: step(w.chain, w.appenders[who]).0,
        appenders: w.appenders.update(who, step(w.chain, w.appenders[who]).1),
    }
}

/// The world after the steps that `schedule` names, first to last.
pub open spec fn run<T>(w: World<T>, schedule: Seq<int>) -> World<T>
    decreases schedule.len(),
{
    if schedule.len() == 0 {
        w
    } else {
        world_step(run(w, schedule.drop_last()), schedule.last())
    }
}

/// An empty log of chunk size `cap` and one appender for each of `vals`, all
/// about to start at the anchor chunk.
pub open spec fn initial<T>(cap: nat, vals: Seq<T>) -> World<T> {
    World {
        chain: seq![ChunkView::fresh(None, cap)],
        appenders: Seq::new(vals.len(), |i: int| Appender::Start { chunk: 0, val: vals[i] }),
    }
}

/// A schedule names appenders that exist.
pub open spec fn schedule_ok(schedule: Seq<int>, count: nat) -> bool {
    forall|k: int| 0 <= k < schedule.len() ==> 0 <= #[trigger] schedule[k] < count
}

/// The absolute index that an appender has made its own, if it has.
pub open spec fn claim<T>(s: Seq<ChunkView<T>>, a: Appender<T>) -> Option<int> {
    match a {
        Appender::Reserved { chunk, slot, .. } => Some(s[chunk as int].start_index + slot),
        Appender::Done { index } => Some(index as int),
        _ => None,
    }
}

/// The index that appender `i` has made its own, if it has.
pub open spec fn claim_of<T>(w: World<T>, i: int) -> Option<int> {
    claim(w.chain, w.appenders[i])
}

/// Whether an appender that is not done yet still carries `v`.
pub open spec fn carries<T>(a: Appender<T>, v: T) -> bool {
    match a {
        Appender::Start { val, .. } => val == v,
        Appender::Observed { val, .. } => val == v,
        Appender::Full { val, .. } => val == v,
        Appender::Install { val, .. } => val == v,
        Appender::Reserved { val, .. } => val == v,
        Appender::Done { .. } => true,
    }
}

/// What holds of appender `i`: its state fits the chain, it carries its
/// value, a slot it owns but has not stored to is empty, what it claims is
/// reserved, and once done its value stands at its index.
pub open spec fn appender_ok<T>(w: World<T>, vals: Seq<T>, i: int) -> bool {
    let a = w.appenders[i];
    let log = log_view(w.chain);
    &&& appender_wf(w.chain, a)
    &&& carries(a, vals[i])
    &&& (a matches Appender::Reserved { chunk, slot, .. } ==> w.chain[chunk as int].slots[slot as int] is None)
    &&& (claim_of(w, i) matches Some(g) ==> 0 <= g < log.len())
    &&& (a matches Appender::Done { index } ==> log[index as int] == Some(vals[i]))
}

/// The appenders that have made an index their own.
pub open spec fn claimed<T>(w: World<T>) -> Set<int> {
    Set::new(|i: int| 0 <= i < w.appenders.len() && claim_of(w, i) is Some)
}

/// What holds of the world whatever the schedule: the chain is well-formed,
/// every appender is in order, no two appenders claim the same index, as
/// many indices are claimed as slots are reserved, and every value in the
/// log is one that an appender brought.
pub open spec fn inv<T>(w: World<T>, vals: Seq<T>) -> bool {
    let log = log_view(w.chain);
    &&& chain_wf(w.chain)
    &&& w.appenders.len() == vals.len()
    &&& vals.len() + 2 * w.chain[0].capacity() <= usize::MAX
    &&& forall|i: int| 0 <= i < vals.len() ==> #[trigger] appender_ok(w, vals, i)
    &&& forall|i: int, j: int|
        0 <= i < vals.len() && 0 <= j < vals.len() && i != j && (#[trigger] claim_of(w, i)) is Some
            && (#[trigger] claim_of(w, j)) is Some ==> claim_of(w, i) != claim_of(w, j)
    &&& claimed(w).finite()
    &&& claimed(w).len() == log.len()
    &&& forall|g: int| 0 <= g < log.len() && (#[trigger] log[g]) is Some ==> vals.contains(log[g].unwrap())
}

/// The invariant holds before any step is taken.
pub proof fn lemma_initial_inv<T>(cap: nat, vals: Seq<T>)
    requires
        cap >= 1,
        vals.len() + 2 * cap <= usize::MAX,
    ensures
        inv(initial(cap, vals), vals),
{
    let w = initial(cap, vals);
    assert(node_wf(w.chain, 0));
    lemma_log_len(w.chain);
    assert(claimed(w) =~= Set::<int>::empty());
    assert forall|i: int| 0 <= i < vals.len() implies #[trigger] appender_ok(w, vals, i) by {}
}

/// No chunk of a well-formed chain starts beyond the end of the log.
proof fn lemma_start_within_log<T>(s: Seq<ChunkView<T>>, c: int)
    requires
        chain_wf(s),
        0 <= c < s.len(),
    ensures
        s[c].start_index + s[c].length <= log_view(s).len(),
        s[s.len() - 1].start_index <= log_view(s).len(),
{
    lemma_log_len(s);
    if c + 1 < s.len() {
        super::chunk::lemma_starts_ordered(s, c, s.len() - 1);
    }
}

/// No more slots are reserved than there are appenders.
proof fn lemma_log_bounded<T>(w: World<T>, vals: Seq<T>)
    requires
        inv(w, vals),
    ensures
        log_view(w.chain).len() <= vals.len(),
        has_room(w.chain),
{
    let n = vals.len() as int;
    vstd::set_lib::lemma_int_range(0, n);
    assert(claimed(w).subset_of(vstd::set_lib::set_int_range(0, n)));
    vstd::set_lib::lemma_len_subset(claimed(w), vstd::set_lib::set_int_range(0, n));
    lemma_start_within_log(w.chain, 0);
    assert(node_wf(w.chain, w.chain.len() - 1));
    assert(node_wf(w.chain, 0));
}

/// A step that claims nothing and changes no chunk keeps the invariant.
proof fn lemma_quiet_step<T>(w: World<T>, vals: Seq<T>, who: int)
    requires
        inv(w, vals),
        0 <= who < vals.len(),
        step(w.chain, w.appenders[who]).0 == w.chain,
        !(w.appenders[who] is Reserved),
    ensures
        inv(world_step(w, who), vals),
{
    let t = world_step(w, who);
    let a = w.appenders[who];
    assert(appender_ok(w, vals, who));
    assert(node_wf(w.chain, 0));
    if a is Install {
        lemma_log_bounded(w, vals);
        lemma_step_wf(w.chain, a);
    } else {
        lemma_step_wf_at(w.chain, a);
    }
    assert forall|i: int| 0 <= i < vals.len() implies claim_of(t, i) == claim_of(w, i) by {
        assert(appender_ok(w, vals, i));
    }
    assert forall|i: int| 0 <= i < vals.len() implies #[trigger] appender_ok(t, vals, i) by {
        assert(appender_ok(w, vals, i));
    }
    assert(claimed(t) =~= claimed(w));
}

/// The step that reserves a slot keeps the invariant.
proof fn lemma_reserve_step<T>(w: World<T>, vals: Seq<T>, who: int)
    requires
        inv(w, vals),
        0 <= who < vals.len(),
        w.appenders[who] matches Appender::Observed { chunk, len, .. } && w.chain[chunk as int].length
            == len,
    ensures
        inv(world_step(w, who), vals),
{
    let t = world_step(w, who);
    let a = w.appenders[who];
    let s = w.chain;
    let log = log_view(s);
    assert(appender_ok(w, vals, who));
    match a {
        Appender::Observed { chunk, len, val } => {
            let c = chunk as int;
            assert(node_wf(s, c));
            assert(node_wf(s, 0));
            lemma_step_wf_at(s, a);
            lemma_log_reserve(s, c);
            lemma_log_len(s);
            assert(log_view(t.chain) == log.push(None));
            assert(claim_of(t, who) == Some(log.len() as int));
            assert forall|i: int| 0 <= i < vals.len() && i != who implies claim_of(t, i)
                == claim_of(w, i) && #[trigger] appender_ok(t, vals, i) by {
                assert(appender_ok(w, vals, i));
            }
            assert(appender_ok(t, vals, who));
            assert(claimed(t) =~= claimed(w).insert(who));
            assert(!claimed(w).contains(who));
            assert forall|i: int, j: int|
                0 <= i < vals.len() && 0 <= j < vals.len() && i != j && (#[trigger] claim_of(
                    t,
                    i,
                )) is Some && (#[trigger] claim_of(t, j)) is Some implies claim_of(t, i)
                != claim_of(t, j) by {
                assert(appender_ok(w, vals, i));
                assert(appender_ok(w, vals, j));
                if i != who && j != who {
                    assert(claim_of(w, i) is Some);
                    assert(claim_of(w, j) is Some);
                }
            }
        },
        _ => {},
    }
}

/// The step that installs a fresh chunk keeps the invariant.
proof fn lemma_install_step<T>(w: World<T>, vals: Seq<T>, who: int)
    requires
        inv(w, vals),
        0 <= who < vals.len(),
        w.appenders[who] matches Appender::Install { chunk, .. } && w.chain[chunk as int].next is None,
    ensures
        inv(world_step(w, who), vals),
{
    let t = world_step(w, who);
    let a = w.appenders[who];
    let s = w.chain;
    assert(appender_ok(w, vals, who));
    match a {
        Appender::Install { chunk, val } => {
            let c = chunk as int;
            assert(node_wf(s, c));
            assert(node_wf(s, 0));
            assert(c == s.len() - 1);
            lemma_log_bounded(w, vals);
            lemma_step_wf(s, a);
            lemma_log_install(s, t.chain);
            assert forall|i: int| 0 <= i < vals.len() implies #[trigger] claim_of(t, i)
                == claim_of(w, i) by {
                assert(appender_ok(w, vals, i));
            }
            assert forall|i: int| 0 <= i < vals.len() implies #[trigger] appender_ok(
                t,
                vals,
                i,
            ) by {
                assert(appender_ok(w, vals, i));
            }
            assert(claimed(t) =~= claimed(w));
            assert forall|i: int, j: int|
                0 <= i < vals.len() && 0 <= j < vals.len() && i != j && (#[trigger] claim_of(
                    t,
                    i,
                )) is Some && (#[trigger] claim_of(t, j)) is Some implies claim_of(t, i)
                != claim_of(t, j) by {
                assert(claim_of(w, i) is Some);
                assert(claim_of(w, j) is Some);
            }
        },
        _ => {},
    }
}

/// The step that stores the value keeps the invariant.
proof fn lemma_store_step<T>(w: World<T>, vals: Seq<T>, who: int)
    requires
        inv(w, vals),
        0 <= who < vals.len(),
        w.appenders[who] is Reserved,
    ensures
        inv(world_step(w, who), vals),
{
    let t = world_step(w, who);
    let a = w.appenders[who];
    let s = w.chain;
    let log = log_view(s);
    assert(appender_ok(w, vals, who));
    match a {
        Appender::Reserved { chunk, slot, val } => {
            let c = chunk as int;
            let g = s[c].start_index + slot;
            assert(node_wf(s, c));
            assert(node_wf(s, 0));
            lemma_step_wf_at(s, a);
            lemma_log_store(s, c, slot as int, Some(val));
            assert(log_view(t.chain) == log.update(g, Some(val)));
            assert(claim_of(w, who) == Some(g));
            assert(claim_of(t, who) == Some(g));
            assert forall|i: int| 0 <= i < vals.len() implies claim_of(t, i) == claim_of(w, i) by {
                assert(appender_ok(w, vals, i));
            }
            assert forall|i: int| 0 <= i < vals.len() implies #[trigger] appender_ok(
                t,
                vals,
                i,
            ) by {
                assert(appender_ok(w, vals, i));
                if i != who {
                    if claim_of(w, i) is Some {
                        assert(claim_of(w, who) is Some);
                        assert(claim_of(w, i) != claim_of(w, who));
                    }
                }
            }
            assert(claimed(t) =~= claimed(w));
            assert forall|i: int, j: int|
                0 <= i < vals.len() && 0 <= j < vals.len() && i != j && (#[trigger] claim_of(
                    t,
                    i,
                )) is Some && (#[trigger] claim_of(t, j)) is Some implies claim_of(t, i)
                != claim_of(t, j) by {
                assert(claim_of(w, i) is Some);
                assert(claim_of(w, j) is Some);
            }
            assert forall|k: int|
                0 <= k < log_view(t.chain).len() && (#[trigger] log_view(
                    t.chain,
                )[k]) is Some implies vals.contains(log_view(t.chain)[k].unwrap()) by {
                if k == g {
                    assert(vals[who] == val);
                } else {
                    assert(log[k] is Some);
                }
            }
        },
        _ => {},
    }
}

/// Whoever takes the next step, the invariant is kept.
pub proof fn lemma_world_step<T>(w: World<T>, vals: Seq<T>, who: int)
    requires
        inv(w, vals),
        0 <= who < vals.len(),
    ensures
        inv(world_step(w, who), vals),
{
    let a = w.appenders[who];
    assert(appender_ok(w, vals, who));
    match a {
        Appender::Observed { chunk, len, val } => {
            if w.chain[chunk as int].length == len {
                lemma_reserve_step(w, vals, who);
            } else {
                lemma_quiet_step(w, vals, who);
            }
        },
        Appender::Install { chunk, val } => {
            if w.chain[chunk as int].next is None {
                lemma_install_step(w, vals, who);
            } else {
                lemma_quiet_step(w, vals, who);
            }
        },
        Appender::Reserved { .. } => {
            lemma_store_step(w, vals, who);
        },
        _ => {
            lemma_quiet_step(w, vals, who);
        },
    }
}

/// The invariant holds after every schedule.
pub proof fn lemma_run_inv<T>(cap: nat, vals: Seq<T>, schedule: Seq<int>)
    requires
        cap >= 1,
        vals.len() + 2 * cap <= usize::MAX,
        schedule_ok(schedule, vals.len()),
    ensures
        inv(run(initial(cap, vals), schedule), vals),
    decreases schedule.len(),
{
    if schedule.len() == 0 {
        lemma_initial_inv(cap, vals);
    } else {
        assert(schedule_ok(schedule.drop_last(), vals.len())) by {
            assert forall|k: int| 0 <= k < schedule.drop_last().len() implies 0
                <= #[trigger] schedule.drop_last()[k] < vals.len() by {
                assert(schedule.drop_last()[k] == schedule[k]);
            }
        }
        lemma_run_inv(cap, vals, schedule.drop_last());
        lemma_world_step(run(initial(cap, vals), schedule.drop_last()), vals, schedule.last());
    }
}

/// Whether every append has come to its end.
pub open spec fn all_done<T>(w: World<T>) -> bool {
    forall|i: int| 0 <= i < w.appenders.len() ==> (#[trigger] w.appenders[i]) is Done
}

/// Appends are linearizable. Let one appender for each of `vals` run on an
/// empty log, their steps interleaved in whatever way. Once all are done,
/// the log has exactly as many slots as there are values, every appender
/// was given an index below that number, no two were given the same, and
/// at each appender's index stands the value it brought.
pub proof fn lemma_appends_linearize<T>(cap: nat, vals: Seq<T>, schedule: Seq<int>)
    requires
        cap >= 1,
        vals.len() + 2 * cap <= usize::MAX,
        schedule_ok(schedule, vals.len()),
        all_done(run(initial(cap, vals), schedule)),
    ensures
        ({
            let w = run(initial(cap, vals), schedule);
            let log = log_view(w.chain);
            &&& log.len() == vals.len()
            &&& forall|i: int|
                0 <= i < vals.len() ==> (#[trigger] w.appenders[i])->index < vals.len()
                    && log[w.appenders[i]->index as int] == Some(vals[i])
            &&& forall|i: int, j: int|
                0 <= i < vals.len() && 0 <= j < vals.len() && i != j ==> (
                #[trigger] w.appenders[i])->index != (#[trigger] w.appenders[j])->index
        }),
{
    let w = run(initial(cap, vals), schedule);
    let log = log_view(w.chain);
    lemma_run_inv(cap, vals, schedule);
    let n = vals.len() as int;
    assert(claimed(w) =~= vstd::set_lib::set_int_range(0, n)) by {
        assert forall|i: int| 0 <= i < n implies claimed(w).contains(i) by {
            assert(w.appenders[i] is Done);
        }
    }
    vstd::set_lib::lemma_int_range(0, n);
    assert forall|i: int| 0 <= i < vals.len() implies (#[trigger] w.appenders[i])->index
        < vals.len() && log[w.appenders[i]->index as int] == Some(vals[i]) by {
        assert(appender_ok(w, vals, i));
        assert(w.appenders[i] is Done);
    }
    assert forall|i: int, j: int| 0 <= i < vals.len() && 0 <= j < vals.len() && i != j implies (
    #[trigger] w.appenders[i])->index != (#[trigger] w.appenders[j])->index by {
        assert(w.appenders[i] is Done);
        assert(w.appenders[j] is Done);
        assert(claim_of(w, i) is Some);
        assert(claim_of(w, j) is Some);
    }
}

/// The values that `writers` bring, writer after writer.
pub open spec fn all_values<T>(writers: Seq<Seq<T>>) -> Seq<T>
    decreases writers.len(),
{
    if writers.len() == 0 {
        Seq::empty()
    } else {
        all_values(writers.drop_last()) + writers.last()
    }
}

/// `count` writers of `each` values bring `count * each` values.
pub proof fn lemma_all_values_len<T>(writers: Seq<Seq<T>>, each: nat)
    requires
        forall|k: int| 0 <= k < writers.len() ==> (#[trigger] writers[k]).len() == each,
    ensures
        all_values(writers).len() == writers.len() * each,
    decreases writers.len(),
{
    if writers.len() > 0 {
        lemma_all_values_len(writers.drop_last(), each);
        assert(writers.len() * each == (writers.len() - 1) * each + each) by (nonlinear_arith);
    } else {
        assert(0 * each == 0) by (nonlinear_arith);
    }
}

/// No write is lost. When `writers.len()` writers append `each` values
/// apiece, in whatever interleaving, then after all appends are done the
/// log's length is the product of the two, and every value stands at the
/// index its append was given and nowhere else is an index given twice.
pub proof fn lemma_no_lost_writes<T>(cap: nat, writers: Seq<Seq<T>>, each: nat, schedule: Seq<int>)
    requires
        cap >= 1,
        forall|k: int| 0 <= k < writers.len() ==> (#[trigger] writers[k]).len() == each,
        all_values(writers).len() + 2 * cap <= usize::MAX,
        schedule_ok(schedule, all_values(writers).len()),
        all_done(run(initial(cap, all_values(writers)), schedule)),
    ensures
        ({
            let vals = all_values(writers);
            let w = run(initial(cap, vals), schedule);
            let log = log_view(w.chain);
            &&& log.len() == writers.len() * each
            &&& forall|i: int|
                0 <= i < vals.len() ==> log[(#[trigger] w.appenders[i])->index as int] == Some(
                    vals[i],
                )
            &&& forall|i: int, j: int|
                0 <= i < vals.len() && 0 <= j < vals.len() && i != j ==> (
                #[trigger] w.appenders[i])->index != (#[trigger] w.appenders[j])->index
        }),
{
    lemma_all_values_len(writers, each);
    lemma_appends_linearize(cap, all_values(writers), schedule);
}

/// No read is torn. At every moment of every interleaving, whatever value a
/// reader finds in a slot of the log is a value that some appender brought:
/// a slot that is reserved but not yet written reads as empty.
pub proof fn lemma_no_torn_reads<T>(cap: nat, vals: Seq<T>, schedule: Seq<int>, g: int)
    requires
        cap >= 1,
        vals.len() + 2 * cap <= usize::MAX,
        schedule_ok(schedule, vals.len()),
        0 <= g < log_view(run(initial(cap, vals), schedule).chain).len(),
        log_view(run(initial(cap, vals), schedule).chain)[g] is Some,
    ensures
        vals.contains(log_view(run(initial(cap, vals), schedule).chain)[g].unwrap()),
{
    lemma_run_inv(cap, vals, schedule);
}

} // verus!
