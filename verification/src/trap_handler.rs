use vstd::prelude::*;
use crate::context::Context;
use crate::hart::HartInfo;
use crate::thread::{Scheduler, schedule, schedule_step};
use crate::ecall::{EcallOutcome, call, ecall_step};

verus! {

/// The cause of a supervisor trap, as `scause` reports it.
#[derive(PartialEq, Eq, Structural, Copy, Clone)]
pub enum TrapCause {
    SupervisorSoft,
    SupervisorTimer,
    SupervisorExternal,
    InstructionMisaligned,
    InstructionFault,
    IllegalInstruction,
    Breakpoint,
    LoadMisaligned,
    LoadFault,
    StoreMisaligned,
    StoreFault,
    UserEnvCall,
    SupervisorEnvCall,
    InstructionPageFault,
    LoadPageFault,
    StorePageFault,
}

/// The causes the kernel handles: timer interrupts and system calls.
pub open spec fn handled(cause: TrapCause) -> bool {
    cause == TrapCause::SupervisorTimer || cause == TrapCause::UserEnvCall
        || cause == TrapCause::SupervisorEnvCall
}

/// Handles a trap of the running thread: a timer interrupt reschedules and
/// asks for the timer to be set again; a system call from user or supervisor
/// mode goes to `call`.
pub fn trap_handler(
    cause: TrapCause,
    context: &mut Context,
    scheduler: &mut Scheduler,
    hart: &mut HartInfo,
    idle_entry: usize,
    idle_sstatus: usize,
) -> (outcome: EcallOutcome)
    requires
        handled(cause),
        cause != TrapCause::SupervisorTimer ==> old(context).sepc + 4 <= usize::MAX,
    ensures
        final(hart).hart_id == old(hart).hart_id,
        cause == TrapCause::SupervisorTimer ==> {
            &&& outcome == EcallOutcome::RearmTimer
            &&& schedule_step(
                old(scheduler).threads(),
                old(scheduler).queue(),
                old(hart).current_thread_id,
                *old(context),
                idle_entry,
                idle_sstatus,
                final(scheduler).threads(),
                final(scheduler).queue(),
                final(hart).current_thread_id,
                *final(context),
            )
        },
        cause != TrapCause::SupervisorTimer ==> ecall_step(
            *old(context),
            old(scheduler).threads(),
            old(scheduler).queue(),
            *old(hart),
            idle_entry,
            idle_sstatus,
            *final(context),
            final(scheduler).threads(),
            final(scheduler).queue(),
            *final(hart),
            outcome,
        ),
{
    match cause {
        TrapCause::SupervisorTimer => {
            schedule(scheduler, hart, context, idle_entry, idle_sstatus);
            EcallOutcome::RearmTimer
        },
        _ => call(context, scheduler, hart, idle_entry, idle_sstatus),
    }
}

/// The time at which the next timer interrupt is due: `quanta` ticks from
/// `now`.
pub fn next_timer_deadline(now: u64, quanta: u64) -> (deadline: u64)
    requires
        now + quanta <= u64::MAX,
    ensures
        deadline == now + quanta,
{
    now + quanta
}

} // verus!
