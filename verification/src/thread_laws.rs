use vstd::prelude::*;
use crate::context::Context;
use crate::thread_table::Thread;
use crate::thread::{after_preemption, first_runnable, reap, runnable, schedule_step};

verus! {

/// Every queued id names a thread of the table, and no id is queued twice.
pub open spec fn queue_well_formed(threads: Map<usize, Thread>, queue: Seq<usize>) -> bool {
    &&& queue.no_duplicates()
    &&& forall|i: int| 0 <= i < queue.len() ==> threads.contains_key(#[trigger] queue[i])
}

proof fn lemma_preemption_keeps_flags(
    threads: Map<usize, Thread>,
    queue: Seq<usize>,
    current: Option<usize>,
    context: Context,
)
    ensures
        ({
            let (t1, q1) = after_preemption(threads, queue, current, context);
            &&& t1.dom() == threads.dom()
            &&& forall|id: usize| #[trigger] t1.contains_key(id) ==> t1[id].dead == threads[id].dead
            &&& forall|id: usize| runnable(t1, id) == runnable(threads, id)
        }),
{
    let (t1, q1) = after_preemption(threads, queue, current, context);
    match current {
        Some(c) => {
            if threads.contains_key(c) {
                assert(t1.dom() =~= threads.dom());
            }
        },
        None => {},
    }
}

/// A thread marked dead is never resumed by the scheduler.
pub proof fn dead_thread_is_never_resumed(
    threads: Map<usize, Thread>,
    queue: Seq<usize>,
    current: Option<usize>,
    context: Context,
    idle_entry: usize,
    idle_sstatus: usize,
    new_threads: Map<usize, Thread>,
    new_queue: Seq<usize>,
    new_current: Option<usize>,
    new_context: Context,
    id: usize,
)
    requires
        schedule_step(threads, queue, current, context, idle_entry, idle_sstatus, new_threads, new_queue, new_current, new_context),
        threads.contains_key(id),
        threads[id].dead,
    ensures
        new_current != Some(id),
{
    lemma_preemption_keeps_flags(threads, queue, current, context);
}

/// Round robin: when the thread at the front of the queue can run, it is the
/// one resumed, and the queue keeps the rest in order with the preempted
/// thread at its back.
pub proof fn front_of_queue_runs_next(
    threads: Map<usize, Thread>,
    queue: Seq<usize>,
    current: Option<usize>,
    context: Context,
    idle_entry: usize,
    idle_sstatus: usize,
    new_threads: Map<usize, Thread>,
    new_queue: Seq<usize>,
    new_current: Option<usize>,
    new_context: Context,
)
    requires
        schedule_step(threads, queue, current, context, idle_entry, idle_sstatus, new_threads, new_queue, new_current, new_context),
        queue.len() > 0,
        runnable(threads, queue[0]),
    ensures
        new_current == Some(queue[0]),
        new_queue == after_preemption(threads, queue, current, context).1.skip(1),
{
    lemma_preemption_keeps_flags(threads, queue, current, context);
    let (t1, q1) = after_preemption(threads, queue, current, context);
    assert(q1[0] == queue[0]);
    assert(first_runnable(t1, q1, 0));
    match new_current {
        Some(id) => {
            let k = choose|k: int| {
                &&& #[trigger] first_runnable(t1, q1, k)
                &&& id == q1[k]
                &&& new_queue == q1.skip(k + 1)
                &&& new_threads == reap(t1, q1.take(k))
                &&& new_context == t1[id].context
            };
            if k > 0 {
                assert(!runnable(t1, q1[0]));
            }
        },
        None => {
            assert(!runnable(t1, q1[0]));
        },
    }
}

/// A runnable thread that is preempted while nothing else is queued is
/// resumed at once with the registers it had.
pub proof fn lone_thread_keeps_running(
    threads: Map<usize, Thread>,
    queue: Seq<usize>,
    current: Option<usize>,
    context: Context,
    idle_entry: usize,
    idle_sstatus: usize,
    new_threads: Map<usize, Thread>,
    new_queue: Seq<usize>,
    new_current: Option<usize>,
    new_context: Context,
)
    requires
        schedule_step(threads, queue, current, context, idle_entry, idle_sstatus, new_threads, new_queue, new_current, new_context),
        queue.len() == 0,
        current is Some,
        runnable(threads, current->0),
    ensures
        new_current == current,
        new_context == context,
        new_queue.len() == 0,
{
    lemma_preemption_keeps_flags(threads, queue, current, context);
    let c = current->0;
    let (t1, q1) = after_preemption(threads, queue, current, context);
    assert(q1 =~= seq![c]);
    assert(q1[0] == c);
    match new_current {
        Some(id) => {
            let k = choose|k: int| {
                &&& #[trigger] first_runnable(t1, q1, k)
                &&& id == q1[k]
                &&& new_queue == q1.skip(k + 1)
                &&& new_threads == reap(t1, q1.take(k))
                &&& new_context == t1[id].context
            };
            assert(k == 0);
            assert(new_queue =~= Seq::<usize>::empty());
        },
        None => {
            assert(!runnable(t1, q1[0]));
        },
    }
}

/// Scheduling keeps the queue well formed, provided the thread the hart was
/// running is not queued; afterwards the thread it resumes, if any, is in
/// the table and not queued.
pub proof fn schedule_keeps_queue_well_formed(
    threads: Map<usize, Thread>,
    queue: Seq<usize>,
    current: Option<usize>,
    context: Context,
    idle_entry: usize,
    idle_sstatus: usize,
    new_threads: Map<usize, Thread>,
    new_queue: Seq<usize>,
    new_current: Option<usize>,
    new_context: Context,
)
    requires
        schedule_step(threads, queue, current, context, idle_entry, idle_sstatus, new_threads, new_queue, new_current, new_context),
        queue_well_formed(threads, queue),
        current matches Some(c) ==> !queue.contains(c),
    ensures
        queue_well_formed(new_threads, new_queue),
        new_current matches Some(n) ==> new_threads.contains_key(n) && !new_queue.contains(n),
{
    lemma_preemption_keeps_flags(threads, queue, current, context);
    let (t1, q1) = after_preemption(threads, queue, current, context);
    assert(queue_well_formed(t1, q1)) by {
        match current {
            Some(c) => {
                if threads.contains_key(c) {
                    assert(q1 == queue.push(c));
                    assert forall|i: int, j: int| 0 <= i < j < q1.len() implies q1[i] != q1[j] by {
                        if j == queue.len() {
                            assert(q1[i] == queue[i]);
                            if queue[i] == c {
                                assert(queue.contains(c));
                            }
                        }
                    }
                }
            },
            None => {},
        }
    }
    match new_current {
        Some(id) => {
            let k = choose|k: int| {
                &&& #[trigger] first_runnable(t1, q1, k)
                &&& id == q1[k]
                &&& new_queue == q1.skip(k + 1)
                &&& new_threads == reap(t1, q1.take(k))
                &&& new_context == t1[id].context
            };
            let prefix = q1.take(k);
            assert forall|i: int| 0 <= i < new_queue.len() implies new_threads.contains_key(#[trigger] new_queue[i]) by {
                let x = new_queue[i];
                assert(x == q1[k + 1 + i]);
                if prefix.contains(x) {
                    let j = choose|j: int| 0 <= j < prefix.len() && prefix[j] == x;
                    assert(q1[j] == q1[k + 1 + i]);
                }
            }
            assert(new_queue.no_duplicates()) by {
                assert forall|i: int, j: int| 0 <= i < j < new_queue.len() implies new_queue[i] != new_queue[j] by {
                    assert(new_queue[i] == q1[k + 1 + i]);
                    assert(new_queue[j] == q1[k + 1 + j]);
                }
            }
            assert(new_threads.contains_key(id)) by {
                if prefix.contains(id) {
                    let j = choose|j: int| 0 <= j < prefix.len() && prefix[j] == id;
                    assert(q1[j] == q1[k]);
                }
            }
            assert(!new_queue.contains(id)) by {
                if new_queue.contains(id) {
                    let j = choose|j: int| 0 <= j < new_queue.len() && new_queue[j] == id;
                    assert(q1[k + 1 + j] == q1[k]);
                }
            }
        },
        None => {
            assert(new_queue.no_duplicates());
        },
    }
}

/// Creating a thread keeps the queue well formed: the new id was not in the
/// table, so it was not queued either.
pub proof fn create_keeps_queue_well_formed(
    threads: Map<usize, Thread>,
    queue: Seq<usize>,
    id: usize,
    new_threads: Map<usize, Thread>,
    new_queue: Seq<usize>,
)
    requires
        queue_well_formed(threads, queue),
        !threads.contains_key(id),
        new_queue == queue.push(id),
        new_threads.dom() == threads.dom().insert(id),
    ensures
        queue_well_formed(new_threads, new_queue),
{
    assert forall|i: int| 0 <= i < new_queue.len() implies new_threads.contains_key(#[trigger] new_queue[i]) by {
        if i < queue.len() {
            assert(new_queue[i] == queue[i]);
            assert(threads.contains_key(queue[i]));
            assert(new_threads.dom().contains(queue[i]));
        } else {
            assert(new_threads.dom().contains(id));
        }
    }
    assert forall|i: int, j: int| 0 <= i < j < new_queue.len() implies new_queue[i] != new_queue[j] by {
        if j == queue.len() {
            assert(threads.contains_key(queue[i]));
        }
    }
}

/// Marking a thread dead keeps the queue well formed.
pub proof fn delete_keeps_queue_well_formed(
    threads: Map<usize, Thread>,
    queue: Seq<usize>,
    new_threads: Map<usize, Thread>,
)
    requires
        queue_well_formed(threads, queue),
        new_threads.dom() == threads.dom(),
    ensures
        queue_well_formed(new_threads, queue),
{
    assert forall|i: int| 0 <= i < queue.len() implies new_threads.contains_key(#[trigger] queue[i]) by {
        assert(threads.contains_key(queue[i]));
        assert(threads.dom().contains(queue[i]));
    }
}

/// Scheduling creates no thread and revives none: every thread in the table
/// afterwards was there before, with the same dead flag and stack.
pub proof fn schedule_only_drops_threads(
    threads: Map<usize, Thread>,
    queue: Seq<usize>,
    current: Option<usize>,
    context: Context,
    idle_entry: usize,
    idle_sstatus: usize,
    new_threads: Map<usize, Thread>,
    new_queue: Seq<usize>,
    new_current: Option<usize>,
    new_context: Context,
)
    requires
        schedule_step(threads, queue, current, context, idle_entry, idle_sstatus, new_threads, new_queue, new_current, new_context),
    ensures
        forall|id: usize| #[trigger] new_threads.contains_key(id) ==> threads.contains_key(id)
            && new_threads[id].dead == threads[id].dead && new_threads[id].stack == threads[id].stack,
{
    let (t1, q1) = after_preemption(threads, queue, current, context);
    match current {
        Some(c) => {
            if threads.contains_key(c) {
                assert(t1.dom() =~= threads.dom());
            }
        },
        None => {},
    }
    match new_current {
        Some(id) => {
            let k = choose|k: int| {
                &&& #[trigger] first_runnable(t1, q1, k)
                &&& id == q1[k]
                &&& new_queue == q1.skip(k + 1)
                &&& new_threads == reap(t1, q1.take(k))
                &&& new_context == t1[id].context
            };
        },
        None => {},
    }
}

/// Every thread of the table is queued or is the one the hart runs.
pub open spec fn table_covered(threads: Map<usize, Thread>, queue: Seq<usize>, current: Option<usize>) -> bool {
    forall|id: usize| #[trigger] threads.contains_key(id) ==> queue.contains(id) || current == Some(id)
}

/// Scheduling leaves no thread behind: if every thread of the table was
/// queued or running before, every thread left in the table afterwards is
/// queued or is the one resumed. A thread that is neither is dropped only
/// when it was dead.
pub proof fn schedule_keeps_table_covered(
    threads: Map<usize, Thread>,
    queue: Seq<usize>,
    current: Option<usize>,
    context: Context,
    idle_entry: usize,
    idle_sstatus: usize,
    new_threads: Map<usize, Thread>,
    new_queue: Seq<usize>,
    new_current: Option<usize>,
    new_context: Context,
)
    requires
        schedule_step(threads, queue, current, context, idle_entry, idle_sstatus, new_threads, new_queue, new_current, new_context),
        table_covered(threads, queue, current),
    ensures
        table_covered(new_threads, new_queue, new_current),
{
    lemma_preemption_keeps_flags(threads, queue, current, context);
    let (t1, q1) = after_preemption(threads, queue, current, context);
    assert forall|x: usize| #[trigger] t1.contains_key(x) implies q1.contains(x) by {
        assert(threads.contains_key(x));
        match current {
            Some(c) => {
                if threads.contains_key(c) {
                    assert(q1 == queue.push(c));
                    if x == c {
                        assert(q1[queue.len() as int] == x);
                    } else {
                        assert(queue.contains(x));
                        let j = choose|j: int| 0 <= j < queue.len() && queue[j] == x;
                        assert(q1[j] == x);
                    }
                }
            },
            None => {},
        }
    }
    match new_current {
        Some(id) => {
            let k = choose|k: int| {
                &&& #[trigger] first_runnable(t1, q1, k)
                &&& id == q1[k]
                &&& new_queue == q1.skip(k + 1)
                &&& new_threads == reap(t1, q1.take(k))
                &&& new_context == t1[id].context
            };
            assert forall|x: usize| #[trigger] new_threads.contains_key(x) implies new_queue.contains(x) || new_current == Some(x) by {
                assert(t1.contains_key(x));
                assert(q1.contains(x));
                let j = choose|j: int| 0 <= j < q1.len() && q1[j] == x;
                if j < k {
                    assert(!runnable(t1, q1[j]));
                    assert(q1.take(k)[j] == x);
                    assert(q1.take(k).contains(x));
                } else if j > k {
                    assert(new_queue[j - k - 1] == x);
                }
            }
        },
        None => {
            assert forall|x: usize| #[trigger] new_threads.contains_key(x) implies new_queue.contains(x) || new_current == Some(x) by {
                assert(t1.contains_key(x));
                assert(q1.contains(x));
                let j = choose|j: int| 0 <= j < q1.len() && q1[j] == x;
                assert(!runnable(t1, q1[j]));
            }
        },
    }
}

/// Creating a thread queues it, and marking one dead moves nothing: both
/// keep every thread of the table queued or running.
pub proof fn create_and_delete_keep_table_covered(
    threads: Map<usize, Thread>,
    queue: Seq<usize>,
    current: Option<usize>,
    id: usize,
    new_threads: Map<usize, Thread>,
    new_queue: Seq<usize>,
)
    requires
        table_covered(threads, queue, current),
        (new_queue == queue.push(id) && new_threads.dom() == threads.dom().insert(id))
            || (new_queue == queue && new_threads.dom() == threads.dom()),
    ensures
        table_covered(new_threads, new_queue, current),
{
    assert forall|x: usize| #[trigger] new_threads.contains_key(x) implies new_queue.contains(x) || current == Some(x) by {
        if new_queue == queue.push(id) && new_threads.dom() == threads.dom().insert(id) {
            if x == id {
                assert(new_queue[queue.len() as int] == x);
            } else {
                assert(threads.dom().contains(x));
                if queue.contains(x) {
                    let j = choose|j: int| 0 <= j < queue.len() && queue[j] == x;
                    assert(new_queue[j] == x);
                }
            }
        } else {
            assert(threads.dom().contains(x));
        }
    }
}

/// Some hart of `harts` (each hart's running thread, if any) runs `id`.
pub open spec fn hart_runs(harts: Seq<Option<usize>>, id: usize) -> bool {
    exists|h: int| 0 <= h < harts.len() && harts[h] == Some(id)
}

/// The scheduler's table holds exactly the queued threads and those the
/// harts run, and each of them is in one place only: queued once, or run
/// by one hart.
pub open spec fn threads_tracked(threads: Map<usize, Thread>, queue: Seq<usize>, harts: Seq<Option<usize>>) -> bool {
    &&& queue.no_duplicates()
    &&& forall|h1: int, h2: int| 0 <= h1 < harts.len() && 0 <= h2 < harts.len() && h1 != h2 && (#[trigger] harts[h1]) is Some
        ==> harts[h1] != #[trigger] harts[h2]
    &&& forall|h: int, i: int| 0 <= h < harts.len() && 0 <= i < queue.len() ==> #[trigger] harts[h] != Some(#[trigger] queue[i])
    &&& forall|id: usize| #[trigger] threads.contains_key(id) <==> (queue.contains(id) || hart_runs(harts, id))
}

proof fn lemma_preemption_tracks(
    threads: Map<usize, Thread>,
    queue: Seq<usize>,
    harts: Seq<Option<usize>>,
    h: int,
    context: Context,
)
    requires
        0 <= h < harts.len(),
        threads_tracked(threads, queue, harts),
    ensures
        ({
            let (t1, q1) = after_preemption(threads, queue, harts[h], context);
            threads_tracked(t1, q1, harts.update(h, None))
        }),
{
    lemma_preemption_keeps_flags(threads, queue, harts[h], context);
    let (t1, q1) = after_preemption(threads, queue, harts[h], context);
    let hs = harts.update(h, None);
    match harts[h] {
        Some(c) => {
            assert(hart_runs(harts, c));
            assert(threads.contains_key(c));
            assert(q1 == queue.push(c));
            assert(!queue.contains(c)) by {
                if queue.contains(c) {
                    let i = choose|i: int| 0 <= i < queue.len() && queue[i] == c;
                    assert(harts[h] != Some(queue[i]));
                }
            }
            assert(q1.no_duplicates()) by {
                assert forall|i: int, j: int| 0 <= i < j < q1.len() implies q1[i] != q1[j] by {
                    if j == queue.len() {
                        assert(q1[i] == queue[i]);
                        if queue[i] == c {
                            assert(queue.contains(c));
                        }
                    }
                }
            }
            assert forall|g: int, i: int| 0 <= g < hs.len() && 0 <= i < q1.len() implies #[trigger] hs[g] != Some(#[trigger] q1[i]) by {
                if g != h {
                    if i < queue.len() {
                        assert(harts[g] != Some(queue[i]));
                    } else {
                        if harts[g] == Some(c) {
                            assert(harts[g] == harts[h]);
                        }
                    }
                }
            }
            assert forall|id: usize| #[trigger] t1.contains_key(id) <==> (q1.contains(id) || hart_runs(hs, id)) by {
                if t1.contains_key(id) {
                    assert(threads.contains_key(id));
                    if queue.contains(id) {
                        let i = choose|i: int| 0 <= i < queue.len() && queue[i] == id;
                        assert(q1[i] == id);
                    } else if id == c {
                        assert(q1[queue.len() as int] == id);
                    } else {
                        let g = choose|g: int| 0 <= g < harts.len() && harts[g] == Some(id);
                        assert(g != h);
                        assert(hs[g] == Some(id));
                    }
                }
                if q1.contains(id) {
                    let i = choose|i: int| 0 <= i < q1.len() && q1[i] == id;
                    if i < queue.len() {
                        assert(queue[i] == id);
                        assert(queue.contains(id));
                    }
                    assert(threads.contains_key(id));
                }
                if hart_runs(hs, id) {
                    let g = choose|g: int| 0 <= g < hs.len() && hs[g] == Some(id);
                    assert(harts[g] == Some(id));
                    assert(hart_runs(harts, id));
                    assert(threads.contains_key(id));
                }
            }
        },
        None => {
            assert(hs =~= harts);
        },
    }
}

/// Scheduling on one hart of several that share the scheduler keeps every
/// thread of the table in exactly one place: queued once, or run by one
/// hart. The hart's running thread goes to the back of the queue, the thread
/// it resumes leaves the queue, and the dead threads passed over leave both
/// the queue and the table.
pub proof fn schedule_keeps_threads_tracked(
    threads: Map<usize, Thread>,
    queue: Seq<usize>,
    harts: Seq<Option<usize>>,
    h: int,
    context: Context,
    idle_entry: usize,
    idle_sstatus: usize,
    new_threads: Map<usize, Thread>,
    new_queue: Seq<usize>,
    new_current: Option<usize>,
    new_context: Context,
)
    requires
        0 <= h < harts.len(),
        threads_tracked(threads, queue, harts),
        schedule_step(threads, queue, harts[h], context, idle_entry, idle_sstatus, new_threads, new_queue, new_current, new_context),
    ensures
        threads_tracked(new_threads, new_queue, harts.update(h, new_current)),
{
    lemma_preemption_tracks(threads, queue, harts, h, context);
    let (t1, q1) = after_preemption(threads, queue, harts[h], context);
    let hs = harts.update(h, None);
    let out = harts.update(h, new_current);
    match new_current {
        Some(id) => {
            let k = choose|k: int| {
                &&& #[trigger] first_runnable(t1, q1, k)
                &&& id == q1[k]
                &&& new_queue == q1.skip(k + 1)
                &&& new_threads == reap(t1, q1.take(k))
                &&& new_context == t1[id].context
            };
            let prefix = q1.take(k);
            assert(new_queue.no_duplicates()) by {
                assert forall|i: int, j: int| 0 <= i < j < new_queue.len() implies new_queue[i] != new_queue[j] by {
                    assert(new_queue[i] == q1[k + 1 + i]);
                    assert(new_queue[j] == q1[k + 1 + j]);
                }
            }
            assert forall|g1: int, g2: int| 0 <= g1 < out.len() && 0 <= g2 < out.len() && g1 != g2 && (#[trigger] out[g1]) is Some
                implies out[g1] != #[trigger] out[g2] by {
                if g1 == h {
                    assert(hs[g2] != Some(q1[k]));
                } else if g2 == h {
                    assert(hs[g1] != Some(q1[k]));
                } else {
                    assert(hs[g1] == out[g1] && hs[g2] == out[g2]);
                }
            }
            assert forall|g: int, i: int| 0 <= g < out.len() && 0 <= i < new_queue.len() implies #[trigger] out[g] != Some(#[trigger] new_queue[i]) by {
                assert(new_queue[i] == q1[k + 1 + i]);
                if g != h {
                    assert(hs[g] != Some(q1[k + 1 + i]));
                }
            }
            assert forall|x: usize| #[trigger] new_threads.contains_key(x) <==> (new_queue.contains(x) || hart_runs(out, x)) by {
                if new_threads.contains_key(x) {
                    assert(t1.contains_key(x));
                    if q1.contains(x) {
                        let j = choose|j: int| 0 <= j < q1.len() && q1[j] == x;
                        if j < k {
                            assert(!runnable(t1, q1[j]));
                            assert(prefix[j] == x);
                            assert(prefix.contains(x));
                        } else if j == k {
                            assert(out[h] == Some(x));
                        } else {
                            assert(new_queue[j - k - 1] == x);
                        }
                    } else {
                        let g = choose|g: int| 0 <= g < hs.len() && hs[g] == Some(x);
                        assert(g != h);
                        assert(out[g] == Some(x));
                    }
                }
                if new_queue.contains(x) {
                    let j = choose|j: int| 0 <= j < new_queue.len() && new_queue[j] == x;
                    assert(q1[k + 1 + j] == x);
                    assert(q1.contains(x));
                    assert(t1.contains_key(x));
                    if prefix.contains(x) {
                        let i = choose|i: int| 0 <= i < prefix.len() && prefix[i] == x;
                        assert(q1[i] == q1[k + 1 + j]);
                    }
                }
                if hart_runs(out, x) {
                    let g = choose|g: int| 0 <= g < out.len() && out[g] == Some(x);
                    if g == h {
                        assert(x == q1[k]);
                        assert(q1.contains(x));
                        if prefix.contains(x) {
                            let i = choose|i: int| 0 <= i < prefix.len() && prefix[i] == x;
                            assert(q1[i] == q1[k]);
                        }
                    } else {
                        assert(hs[g] == Some(x));
                        assert(hart_runs(hs, x));
                        if prefix.contains(x) {
                            let i = choose|i: int| 0 <= i < prefix.len() && prefix[i] == x;
                            assert(hs[g] != Some(q1[i]));
                        }
                    }
                    assert(t1.contains_key(x));
                }
            }
        },
        None => {
            assert(out =~= hs);
            assert forall|x: usize| #[trigger] new_threads.contains_key(x) <==> (new_queue.contains(x) || hart_runs(out, x)) by {
                if new_threads.contains_key(x) {
                    assert(t1.contains_key(x));
                    if q1.contains(x) {
                        let j = choose|j: int| 0 <= j < q1.len() && q1[j] == x;
                        assert(!runnable(t1, q1[j]));
                    }
                }
                if hart_runs(out, x) {
                    let g = choose|g: int| 0 <= g < out.len() && out[g] == Some(x);
                    assert(t1.contains_key(x));
                    if q1.contains(x) {
                        let i = choose|i: int| 0 <= i < q1.len() && q1[i] == x;
                        assert(hs[g] != Some(q1[i]));
                    }
                }
            }
        },
    }
}

/// Creating a thread queues a fresh id, and marking one dead moves nothing:
/// both keep every thread of the table in exactly one place.
pub proof fn create_and_delete_keep_threads_tracked(
    threads: Map<usize, Thread>,
    queue: Seq<usize>,
    harts: Seq<Option<usize>>,
    id: usize,
    new_threads: Map<usize, Thread>,
    new_queue: Seq<usize>,
)
    requires
        threads_tracked(threads, queue, harts),
        (!threads.contains_key(id) && new_queue == queue.push(id) && new_threads.dom() == threads.dom().insert(id))
            || (new_queue == queue && new_threads.dom() == threads.dom()),
    ensures
        threads_tracked(new_threads, new_queue, harts),
{
    if new_queue == queue && new_threads.dom() == threads.dom() {
        assert forall|x: usize| #[trigger] new_threads.contains_key(x) <==> (new_queue.contains(x) || hart_runs(harts, x)) by {
            assert(new_threads.dom().contains(x) == threads.dom().contains(x));
        }
    } else {
        assert(!queue.contains(id));
        assert(!hart_runs(harts, id));
        assert(new_queue.no_duplicates()) by {
            assert forall|i: int, j: int| 0 <= i < j < new_queue.len() implies new_queue[i] != new_queue[j] by {
                if j == queue.len() {
                    assert(queue[i] == new_queue[i]);
                    assert(queue.contains(queue[i]));
                }
            }
        }
        assert forall|g: int, i: int| 0 <= g < harts.len() && 0 <= i < new_queue.len() implies #[trigger] harts[g] != Some(#[trigger] new_queue[i]) by {
            if i < queue.len() {
                assert(new_queue[i] == queue[i]);
            } else if harts[g] == Some(id) {
                assert(hart_runs(harts, id));
            }
        }
        assert forall|x: usize| #[trigger] new_threads.contains_key(x) <==> (new_queue.contains(x) || hart_runs(harts, x)) by {
            assert(new_threads.dom().contains(x) == (threads.dom().contains(x) || x == id));
            if x == id {
                assert(new_queue[queue.len() as int] == x);
            } else {
                if queue.contains(x) {
                    let i = choose|i: int| 0 <= i < queue.len() && queue[i] == x;
                    assert(new_queue[i] == x);
                }
                if new_queue.contains(x) {
                    let i = choose|i: int| 0 <= i < new_queue.len() && new_queue[i] == x;
                    assert(i < queue.len());
                    assert(queue[i] == x);
                    assert(queue.contains(x));
                }
            }
        }
    }
}

} // verus!
