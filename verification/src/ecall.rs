use vstd::prelude::*;
use crate::context::Context;
use crate::hart::HartInfo;
use crate::thread_table::Thread;
use crate::thread::{after_preemption, first_runnable, reap, Scheduler, cleanup_thread, delete_thread, runnable, schedule, schedule_step};

verus! {

/// System call numbers, read from register `a7`.
pub const ECALL_EXIT: usize = 0;
pub const ECALL_YIELD: usize = 1;
pub const ECALL_CREATE_THREAD: usize = 2;
pub const ECALL_WAIT: usize = 3;
pub const ECALL_SHUTDOWN: usize = 9;
pub const ECALL_PRINT_CHAR: usize = 10;
pub const ECALL_PRINT_STRING: usize = 11;
pub const ECALL_GET_CHAR: usize = 30;

/// What is left to do for a system call once `call` has done its part.
#[derive(PartialEq, Eq, Structural)]
pub enum EcallOutcome {
    /// Nothing more.
    Done,
    /// The hart switched threads: its timer must be set for a new slice.
    RearmTimer,
    /// Create a thread from these registers, then report its id with
    /// `finish_create_thread`.
    CreateThread { entry: usize, stack_size: usize, args_address: usize, args_length: usize },
    /// Power the machine off.
    Shutdown,
    /// Print the character with this code point.
    PrintChar { code: u32 },
    /// Print the UTF-8 text of this memory range.
    PrintString { address: usize, length: usize },
    /// Read a character from the firmware console, then report it with
    /// `finish_get_char`.
    GetChar,
}

/// `ctx` with only its program counter moved past the `ecall`.
pub open spec fn past_ecall(ctx: Context) -> Context {
    Context { sepc: (ctx.sepc + 4) as usize, ..ctx }
}

/// `after` is `before` with only the argument registers changed, to `a`.
pub open spec fn with_args(before: Context, after: Context, a: Seq<usize>) -> bool {
    &&& after == Context { a: after.a, ..before }
    &&& after.a@ == a
}

/// The table with thread `id` marked dead.
pub open spec fn marked_dead(threads: Map<usize, Thread>, id: usize) -> Map<usize, Thread> {
    threads.insert(id, Thread { dead: true, ..threads[id] })
}

/// The request to create a thread, from the argument registers.
pub open spec fn create_request(ctx: Context) -> EcallOutcome {
    EcallOutcome::CreateThread {
        entry: ctx.a[0],
        stack_size: ctx.a[1],
        args_address: ctx.a[2],
        args_length: ctx.a[3],
    }
}

/// The request to print a character: the low 32 bits of `a0`.
pub open spec fn print_char_request(ctx: Context) -> EcallOutcome {
    EcallOutcome::PrintChar { code: ctx.a[0] as u32 }
}

/// The request to print a string held at `a0`, `a1` bytes long.
pub open spec fn print_string_request(ctx: Context) -> EcallOutcome {
    EcallOutcome::PrintString { address: ctx.a[0], length: ctx.a[1] }
}

/// One system call, from the registers, table, queue and hart record
/// before it to those after it and what is left to do (see `call`).
pub open spec fn ecall_step(
    context: Context,
    threads: Map<usize, Thread>,
    queue: Seq<usize>,
    hart: HartInfo,
    idle_entry: usize,
    idle_sstatus: usize,
    new_context: Context,
    new_threads: Map<usize, Thread>,
    new_queue: Seq<usize>,
    new_hart: HartInfo,
    outcome: EcallOutcome,
) -> bool {
    let ctx = past_ecall(context);
    let code = context.a[7];
    if code == ECALL_EXIT {
        let found = match hart.current_thread_id {
            Some(id) => threads.contains_key(id),
            None => false,
        };
        &&& outcome == EcallOutcome::Done
        &&& with_args(ctx, new_context, ctx.a@.update(0, if found { 1 } else { 0 }))
        &&& new_hart == hart
        &&& new_queue == queue
        &&& new_threads == (if found {
            marked_dead(threads, hart.current_thread_id->0)
        } else {
            threads
        })
    } else if code == ECALL_YIELD || (code == ECALL_WAIT && runnable(threads, ctx.a[0])) {
        let resumed = if code == ECALL_YIELD { ctx } else { context };
        &&& outcome == EcallOutcome::RearmTimer
        &&& schedule_step(
            threads,
            queue,
            hart.current_thread_id,
            resumed,
            idle_entry,
            idle_sstatus,
            new_threads,
            new_queue,
            new_hart.current_thread_id,
            new_context,
        )
    } else {
        &&& new_context == ctx
        &&& new_hart == hart
        &&& new_threads == threads
        &&& new_queue == queue
        &&& outcome == (if code == ECALL_CREATE_THREAD {
            create_request(ctx)
        } else if code == ECALL_SHUTDOWN {
            EcallOutcome::Shutdown
        } else if code == ECALL_PRINT_CHAR {
            print_char_request(ctx)
        } else if code == ECALL_PRINT_STRING {
            print_string_request(ctx)
        } else if code == ECALL_GET_CHAR {
            EcallOutcome::GetChar
        } else {
            EcallOutcome::Done
        })
    }
}

/// Handles the system call whose number is in `a7` of the trapped thread's
/// registers. The return address always moves past the `ecall`. Then:
/// exit marks the running thread dead and sets `a0` to 1 when there was
/// such a thread, 0 otherwise; yield reschedules; wait reschedules, with
/// the `ecall` to be retried, while the awaited thread (`a0`) still runs;
/// the other calls are handed back as an `EcallOutcome` together with their
/// arguments; an unknown number does nothing more.
pub fn call(
    context: &mut Context,
    scheduler: &mut Scheduler,
    hart: &mut HartInfo,
    idle_entry: usize,
    idle_sstatus: usize,
) -> (outcome: EcallOutcome)
    requires
        old(context).sepc + 4 <= usize::MAX,
    ensures
        final(hart).hart_id == old(hart).hart_id,
        ecall_step(
            *old(context),
            old(scheduler).threads(),
            old(scheduler).queue(),
            *old(hart),
            idle_entry,
            idle_sstatus,
            *final(context),
            final(scheduler).threads(),
            final(scheduler).queue(),
            *final(hart),
            outcome,
        ),
{
    context.sepc = context.sepc + 4;
    let code = context.a[7];
    if code == ECALL_EXIT {
        let found = match hart.current_thread_id {
            Some(id) => delete_thread(scheduler, id),
            None => false,
        };
        context.a[0] = if found { 1 } else { 0 };
        EcallOutcome::Done
    } else if code == ECALL_YIELD {
        schedule(scheduler, hart, context, idle_entry, idle_sstatus);
        EcallOutcome::RearmTimer
    } else if code == ECALL_CREATE_THREAD {
        EcallOutcome::CreateThread {
            entry: context.a[0],
            stack_size: context.a[1],
            args_address: context.a[2],
            args_length: context.a[3],
        }
    } else if code == ECALL_WAIT {
        if cleanup_thread(scheduler, context.a[0]) {
            EcallOutcome::Done
        } else {
            context.sepc = context.sepc - 4;
            schedule(scheduler, hart, context, idle_entry, idle_sstatus);
            EcallOutcome::RearmTimer
        }
    } else if code == ECALL_SHUTDOWN {
        EcallOutcome::Shutdown
    } else if code == ECALL_PRINT_CHAR {
        EcallOutcome::PrintChar { code: context.a[0] as u32 }
    } else if code == ECALL_PRINT_STRING {
        EcallOutcome::PrintString { address: context.a[0], length: context.a[1] }
    } else if code == ECALL_GET_CHAR {
        EcallOutcome::GetChar
    } else {
        EcallOutcome::Done
    }
}

/// Reports the id of a thread created for a system call: it goes to `a0`.
pub fn finish_create_thread(context: &mut Context, id: usize)
    ensures
        with_args(*old(context), *final(context), old(context).a@.update(0, id)),
{
    context.a[0] = id;
}

/// Reports a character read for a system call: when there is one, it goes
/// to `a0` and `a1` becomes 1; otherwise `a1` becomes 0.
pub fn finish_get_char(context: &mut Context, character: Option<u8>)
    ensures
        with_args(
            *old(context),
            *final(context),
            match character {
                Some(c) => old(context).a@.update(0, c as usize).update(1, 1),
                None => old(context).a@.update(1, 0),
            },
        ),
{
    match character {
        Some(c) => {
            context.a[0] = c as usize;
            context.a[1] = 1;
        },
        None => {
            context.a[1] = 0;
        },
    }
}

/// A thread that makes the exit call is never resumed afterwards: the next
/// scheduling step, whatever the hart then saves, does not pick it.
pub proof fn exited_thread_is_not_resumed(
    context: Context,
    threads: Map<usize, Thread>,
    queue: Seq<usize>,
    hart: HartInfo,
    idle_entry: usize,
    idle_sstatus: usize,
    new_context: Context,
    new_threads: Map<usize, Thread>,
    new_queue: Seq<usize>,
    new_hart: HartInfo,
    outcome: EcallOutcome,
    saved: Context,
    last_threads: Map<usize, Thread>,
    last_queue: Seq<usize>,
    last_current: Option<usize>,
    last_context: Context,
)
    requires
        ecall_step(context, threads, queue, hart, idle_entry, idle_sstatus, new_context, new_threads, new_queue, new_hart, outcome),
        context.a[7] == ECALL_EXIT,
        hart.current_thread_id is Some,
        schedule_step(new_threads, new_queue, new_hart.current_thread_id, saved, idle_entry, idle_sstatus,
            last_threads, last_queue, last_current, last_context),
    ensures
        last_current != hart.current_thread_id,
{
    let c = hart.current_thread_id->0;
    if threads.contains_key(c) {
        assert(new_threads.contains_key(c) && new_threads[c].dead);
        crate::thread_laws::dead_thread_is_never_resumed(new_threads, new_queue, new_hart.current_thread_id, saved,
            idle_entry, idle_sstatus, last_threads, last_queue, last_current, last_context, c);
    } else {
        assert(new_threads == threads);
        crate::thread_laws::schedule_only_drops_threads(new_threads, new_queue, new_hart.current_thread_id, saved,
            idle_entry, idle_sstatus, last_threads, last_queue, last_current, last_context);
        let (t1, q1) = after_preemption(new_threads, new_queue, new_hart.current_thread_id, saved);
        if last_current == Some(c) {
            let k = choose|k: int| {
                &&& #[trigger] first_runnable(t1, q1, k)
                &&& c == q1[k]
                &&& last_queue == q1.skip(k + 1)
                &&& last_threads == reap(t1, q1.take(k))
                &&& last_context == t1[c].context
            };
            assert(t1.dom() =~= new_threads.dom());
        }
    }
}

/// The print-character call hands on the low 32 bits of `a0` as the code
/// point, so every Unicode code point comes back unchanged, and the machine
/// state is left as it was but for the return address.
pub proof fn print_char_keeps_code_point(
    context: Context,
    threads: Map<usize, Thread>,
    queue: Seq<usize>,
    hart: HartInfo,
    idle_entry: usize,
    idle_sstatus: usize,
    new_context: Context,
    new_threads: Map<usize, Thread>,
    new_queue: Seq<usize>,
    new_hart: HartInfo,
    outcome: EcallOutcome,
)
    requires
        ecall_step(context, threads, queue, hart, idle_entry, idle_sstatus, new_context, new_threads, new_queue, new_hart, outcome),
        context.a[7] == ECALL_PRINT_CHAR,
    ensures
        outcome matches EcallOutcome::PrintChar { code } && code as int == context.a[0] as int % 0x1_0000_0000,
        context.a[0] < 0x11_0000 ==> outcome == (EcallOutcome::PrintChar { code: context.a[0] as u32 }) && outcome->code as int == context.a[0] as int,
        new_threads == threads,
        new_queue == queue,
        new_hart == hart,
        new_context.a == context.a,
{
    let x = context.a[0];
    assert((x as u32) as int == x as int % 0x1_0000_0000) by (bit_vector);
    assert(x < 0x11_0000 ==> (x as u32) as int == x as int) by (bit_vector);
}

/// The thread-creation call hands on `a0` to `a3` as the entry point, the
/// stack size and the address and length of the arguments; the string
/// printing call hands on `a0` and `a1` as the address and length.
pub proof fn requests_carry_their_registers(
    context: Context,
    threads: Map<usize, Thread>,
    queue: Seq<usize>,
    hart: HartInfo,
    idle_entry: usize,
    idle_sstatus: usize,
    new_context: Context,
    new_threads: Map<usize, Thread>,
    new_queue: Seq<usize>,
    new_hart: HartInfo,
    outcome: EcallOutcome,
)
    requires
        ecall_step(context, threads, queue, hart, idle_entry, idle_sstatus, new_context, new_threads, new_queue, new_hart, outcome),
    ensures
        context.a[7] == ECALL_CREATE_THREAD ==> (outcome matches EcallOutcome::CreateThread { entry, stack_size, args_address, args_length }
            && entry == context.a[0] && stack_size == context.a[1] && args_address == context.a[2] && args_length == context.a[3]),
        context.a[7] == ECALL_PRINT_STRING ==> (outcome matches EcallOutcome::PrintString { address, length }
            && address == context.a[0] && length == context.a[1]),
{
}

} // verus!
