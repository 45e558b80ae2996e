use vstd::prelude::*;
use std::collections::VecDeque;
use slab::Slab;
use crate::context::Context;
use crate::hart::HartInfo;
pub use crate::thread_table::Thread;
use crate::thread_table::{slab_threads, slab_new, slab_insert, slab_contains, slab_get, slab_remove, slab_get_mut};

verus! {

/// Size in bytes of the stack given to each thread.
pub const STACK_SIZE: usize = 4096;

/// The SPIE bit of `sstatus`: interrupts are enabled after `sret`.
pub const SSTATUS_SPIE: usize = 0x20;

/// The SPP bit of `sstatus`: `sret` returns to supervisor mode when set,
/// to user mode when clear.
pub const SSTATUS_SPP: usize = 0x100;

pub open spec fn spec_with_previous_privilege(bits: usize, supervisor: bool) -> usize {
    if supervisor {
        bits | SSTATUS_SPP
    } else {
        bits & !SSTATUS_SPP
    }
}

/// `sstatus` with its SPP field set to supervisor or to user mode.
pub fn with_previous_privilege(bits: usize, supervisor: bool) -> (r: usize)
    ensures
        r == spec_with_previous_privilege(bits, supervisor),
{
    if supervisor {
        bits | SSTATUS_SPP
    } else {
        bits & !SSTATUS_SPP
    }
}

/// `sstatus` with its SPIE bit set.
pub fn with_previous_interrupt_enable(bits: usize) -> (r: usize)
    ensures
        r == bits | SSTATUS_SPIE,
{
    bits | SSTATUS_SPIE
}

/// The `sstatus` a new thread starts with: SPIE set, SPP according to its
/// privilege.
pub open spec fn thread_sstatus(bits: usize, privileged: bool) -> usize {
    spec_with_previous_privilege(bits, privileged) | SSTATUS_SPIE
}

/// The registers a new thread starts with: all zero but the stack pointer
/// and first argument, which point at its arguments, the entry point and
/// `sstatus`.
pub open spec fn initial_context(c: Context, entry: usize, args_base: usize, sstatus: usize) -> bool {
    &&& c.ra == 0
    &&& c.sp == args_base
    &&& c.gp == 0
    &&& c.tp == 0
    &&& c.t@ == Seq::new(7, |i: int| 0usize)
    &&& c.a@ == Seq::new(8, |i: int| 0usize).update(0, args_base)
    &&& c.s@ == Seq::new(12, |i: int| 0usize)
    &&& c.f@ == Seq::new(32, |i: int| 0u64)
    &&& c.fcsr == 0
    &&& c._pad == 0
    &&& c.sstatus == sstatus
    &&& c.sepc == entry
}

/// Whether the table holds a thread under `id` that may still run.
pub open spec fn runnable(threads: Map<usize, Thread>, id: usize) -> bool {
    threads.contains_key(id) && !threads[id].dead
}

/// The table once the dead threads named in `passed` are dropped from it.
pub open spec fn reap(threads: Map<usize, Thread>, passed: Seq<usize>) -> Map<usize, Thread> {
    Map::new(
        |id: usize| threads.contains_key(id) && !(passed.contains(id) && threads[id].dead),
        |id: usize| threads[id],
    )
}

/// `k` is the first position of the queue that names a runnable thread.
pub open spec fn first_runnable(threads: Map<usize, Thread>, queue: Seq<usize>, k: int) -> bool {
    &&& 0 <= k < queue.len()
    &&& runnable(threads, queue[k])
    &&& forall|j: int| 0 <= j < k ==> !runnable(threads, #[trigger] queue[j])
}

/// The thread table and the run queue.
pub struct Scheduler {
    threads: Slab<Thread>,
    queue: VecDeque<usize>,
}

impl Scheduler {
    /// The threads, by id.
    pub closed spec fn threads(&self) -> Map<usize, Thread> {
        slab_threads(self.threads)
    }

    /// The ids waiting to run, front first.
    pub closed spec fn queue(&self) -> Seq<usize> {
        self.queue@
    }

    /// A scheduler with no thread.
    pub fn new() -> (s: Scheduler)
        ensures
            s.threads() == Map::<usize, Thread>::empty(),
            s.queue() == Seq::<usize>::empty(),
    {
        Scheduler { threads: slab_new(), queue: VecDeque::new() }
    }
}

/// A zeroed stack for a new thread.
pub fn new_stack() -> (stack: Vec<u8>)
    ensures
        stack@ == Seq::new(STACK_SIZE as nat, |i: int| 0u8),
{
    vec![0u8; STACK_SIZE]
}

/// Creates a thread that starts at `entry` with `args` copied to the top of
/// `stack`, whose first byte lies at `stack_address`, and queues it. Its
/// stack pointer and first argument register point at the copied
/// arguments; `sstatus` is the current status with SPIE set and SPP set to
/// supervisor for a privileged thread, user otherwise. Returns its id.
pub fn create_thread(
    scheduler: &mut Scheduler,
    entry: usize,
    privileged: bool,
    args: &[u8],
    sstatus: usize,
    stack: Vec<u8>,
    stack_address: usize,
) -> (id: usize)
    requires
        stack@.len() == STACK_SIZE,
        args@.len() <= STACK_SIZE,
        stack_address + STACK_SIZE <= usize::MAX,
    ensures
        !old(scheduler).threads().contains_key(id),
        final(scheduler).queue() == old(scheduler).queue().push(id),
        final(scheduler).threads().dom() == old(scheduler).threads().dom().insert(id),
        forall|k: usize| k != id && old(scheduler).threads().contains_key(k)
            ==> #[trigger] final(scheduler).threads()[k] == old(scheduler).threads()[k],
        ({
            let t = final(scheduler).threads()[id];
            let base = (stack_address + STACK_SIZE - args@.len()) as usize;
            &&& !t.dead
            &&& t.stack@ == stack@.subrange(0, STACK_SIZE - args@.len()) + args@
            &&& initial_context(t.context, entry, base, thread_sstatus(sstatus, privileged))
        }),
{
    let ghost given = stack@;
    let mut stack = stack;
    let offset = STACK_SIZE - args.len();
    let mut i: usize = 0;
    while i < args.len()
        invariant
            offset == STACK_SIZE - args@.len(),
            stack@.len() == STACK_SIZE,
            given.len() == STACK_SIZE,
            i <= args@.len(),
            forall|j: int| 0 <= j < offset ==> #[trigger] stack@[j] == given[j],
            forall|j: int| 0 <= j < i ==> #[trigger] stack@[offset + j] == args@[j],
        decreases args@.len() - i,
    {
        stack.set(offset + i, args[i]);
        i = i + 1;
    }
    assert forall|j: int| offset <= j < STACK_SIZE implies stack@[j] == args@[j - offset] by {
        assert(stack@[offset + (j - offset)] == args@[j - offset]);
    }
    assert(stack@ =~= given.subrange(0, offset as int) + args@);
    let base = stack_address + offset;
    let mut context = Context::default();
    context.sp = base;
    context.a[0] = base;
    context.sepc = entry;
    context.sstatus = with_previous_interrupt_enable(with_previous_privilege(sstatus, privileged));
    assert(context.a@ =~= Seq::new(8, |i: int| 0usize).update(0, base));
    let thread = Thread { context, stack, dead: false };
    let id = slab_insert(&mut scheduler.threads, thread);
    scheduler.queue.push_back(id);
    id
}

/// Marks the thread `id` as dead, to be dropped when the scheduler next
/// reaches it. Returns whether such a thread exists.
pub fn delete_thread(scheduler: &mut Scheduler, id: usize) -> (found: bool)
    ensures
        found == old(scheduler).threads().contains_key(id),
        final(scheduler).queue() == old(scheduler).queue(),
        found ==> final(scheduler).threads() == old(scheduler).threads().insert(
            id,
            Thread {
                context: old(scheduler).threads()[id].context,
                stack: old(scheduler).threads()[id].stack,
                dead: true,
            },
        ),
        !found ==> final(scheduler).threads() == old(scheduler).threads(),
{
    if slab_contains(&scheduler.threads, id) {
        slab_get_mut(&mut scheduler.threads, id).dead = true;
        true
    } else {
        false
    }
}

/// Whether the thread `id` has finished: there is no such thread, or it has
/// been marked dead.
pub fn cleanup_thread(scheduler: &Scheduler, id: usize) -> (finished: bool)
    ensures
        finished == !runnable(scheduler.threads(), id),
{
    match slab_get(&scheduler.threads, id) {
        Some(thread) => thread.dead,
        None => true,
    }
}

/// The thread the hart is running, if any.
pub fn get_current_thread(hart: &HartInfo) -> (id: Option<usize>)
    ensures
        id == hart.current_thread_id,
{
    hart.current_thread_id
}

/// The table and queue once the thread the hart was running, if the table
/// still holds it, has its registers saved and is put at the back of the
/// queue.
pub open spec fn after_preemption(
    threads: Map<usize, Thread>,
    queue: Seq<usize>,
    current: Option<usize>,
    context: Context,
) -> (Map<usize, Thread>, Seq<usize>) {
    match current {
        Some(c) => if threads.contains_key(c) {
            (
                threads.insert(c, Thread { context: context, stack: threads[c].stack, dead: threads[c].dead }),
                queue.push(c),
            )
        } else {
            (threads, queue)
        },
        None => (threads, queue),
    }
}

/// The registers of a hart that has nothing to run: those it had, resuming
/// at `idle_entry` in supervisor mode with interrupts enabled.
pub open spec fn idle_context(old_context: Context, idle_entry: usize, idle_sstatus: usize) -> Context {
    Context {
        sepc: idle_entry,
        sstatus: spec_with_previous_privilege(idle_sstatus | SSTATUS_SPIE, true),
        ..old_context
    }
}

proof fn lemma_push_contains(s: Seq<usize>, x: usize)
    ensures
        forall|y: usize| #[trigger] s.push(x).contains(y) <==> (s.contains(y) || y == x),
{
    assert forall|y: usize| #[trigger] s.push(x).contains(y) <==> (s.contains(y) || y == x) by {
        if s.contains(y) {
            let i = choose|i: int| 0 <= i < s.len() && s[i] == y;
            assert(s.push(x)[i] == y);
        }
        if y == x {
            assert(s.push(x)[s.len() as int] == y);
        }
        if s.push(x).contains(y) {
            let i = choose|i: int| 0 <= i < s.len() + 1 && s.push(x)[i] == y;
            if i < s.len() {
                assert(s[i] == y);
            }
        }
    }
}

/// One scheduling step, from the table, queue, running thread and registers
/// before it to those after it (see `schedule`).
pub open spec fn schedule_step(
    threads: Map<usize, Thread>,
    queue: Seq<usize>,
    current: Option<usize>,
    context: Context,
    idle_entry: usize,
    idle_sstatus: usize,
    new_threads: Map<usize, Thread>,
    new_queue: Seq<usize>,
    new_current: Option<usize>,
    new_context: Context,
) -> bool {
    let (t1, q1) = after_preemption(threads, queue, current, context);
    match new_current {
        Some(id) => exists|k: int| {
            &&& #[trigger] first_runnable(t1, q1, k)
            &&& id == q1[k]
            &&& new_queue == q1.skip(k + 1)
            &&& new_threads == reap(t1, q1.take(k))
            &&& new_context == t1[id].context
        },
        None => {
            &&& forall|k: int| 0 <= k < q1.len() ==> !runnable(t1, #[trigger] q1[k])
            &&& new_queue == Seq::<usize>::empty()
            &&& new_threads == reap(t1, q1)
            &&& new_context == idle_context(context, idle_entry, idle_sstatus)
        },
    }
}

/// Round-robin scheduling on a timer tick or a yield. The thread the hart
/// was running, if the table still holds it, gets `context` saved and goes
/// to the back of the queue. Then the first queued thread that is still
/// runnable is taken off the queue and resumed: `context` becomes its saved
/// registers. Every entry before it leaves the queue, and the dead threads
/// they name leave the table. When no queued thread is runnable, the queue
/// ends empty and the hart idles at `idle_entry`.
pub fn schedule(
    scheduler: &mut Scheduler,
    hart: &mut HartInfo,
    context: &mut Context,
    idle_entry: usize,
    idle_sstatus: usize,
)
    ensures
        final(hart).hart_id == old(hart).hart_id,
        schedule_step(
            old(scheduler).threads(),
            old(scheduler).queue(),
            old(hart).current_thread_id,
            *old(context),
            idle_entry,
            idle_sstatus,
            final(scheduler).threads(),
            final(scheduler).queue(),
            final(hart).current_thread_id,
            *final(context),
        ),
{
    if let Some(current) = hart.current_thread_id {
        if slab_contains(&scheduler.threads, current) {
            scheduler.queue.push_back(current);
            slab_get_mut(&mut scheduler.threads, current).context = *context;
        }
    }
    let ghost t1 = slab_threads(scheduler.threads);
    let ghost q1 = scheduler.queue@;
    let ghost mut passed: Seq<usize> = Seq::empty();
    assert(reap(t1, passed) =~= t1);
    loop
        invariant
            q1 == passed + scheduler.queue@,
            slab_threads(scheduler.threads) == reap(t1, passed),
            forall|j: int| 0 <= j < passed.len() ==> !runnable(t1, #[trigger] passed[j]),
            hart.hart_id == old(hart).hart_id,
            *context == *old(context),
            t1 == after_preemption(old(scheduler).threads(), old(scheduler).queue(), old(hart).current_thread_id, *old(context)).0,
            q1 == after_preemption(old(scheduler).threads(), old(scheduler).queue(), old(hart).current_thread_id, *old(context)).1,
        decreases scheduler.queue@.len(),
    {
        match scheduler.queue.pop_front() {
            Some(id) => {
                match slab_get(&scheduler.threads, id) {
                    Some(thread) => {
                        if thread.dead {
                            slab_remove(&mut scheduler.threads, id);
                            proof {
                                lemma_push_contains(passed, id);
                                assert(reap(t1, passed.push(id)) =~= reap(t1, passed).remove(id));
                                passed = passed.push(id);
                            }
                        } else {
                            *context = thread.context;
                            hart.current_thread_id = Some(id);
                            proof {
                                assert(q1[passed.len() as int] == id);
                                assert(passed =~= q1.take(passed.len() as int));
                                assert(scheduler.queue@ =~= q1.skip(passed.len() as int + 1));
                                assert(first_runnable(t1, q1, passed.len() as int));
                                assert(*context == t1[id].context);
                                assert(slab_threads(scheduler.threads) == reap(t1, q1.take(passed.len() as int)));
                            }
                            return;
                        }
                    },
                    None => {
                        proof {
                            lemma_push_contains(passed, id);
                            assert(reap(t1, passed.push(id)) =~= reap(t1, passed));
                            passed = passed.push(id);
                        }
                    },
                }
            },
            None => {
                hart.current_thread_id = None;
                context.sepc = idle_entry;
                context.sstatus = with_previous_privilege(with_previous_interrupt_enable(idle_sstatus), true);
                proof {
                    assert(scheduler.queue@ =~= Seq::<usize>::empty());
                    assert(passed =~= q1);
                }
                return;
            },
        }
    }
}

} // verus!
