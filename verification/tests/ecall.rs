use rvkernel::context::Context;
use rvkernel::ecall::{call, finish_create_thread, finish_get_char, EcallOutcome};
use rvkernel::hart::HartInfo;
use rvkernel::thread::{cleanup_thread, create_thread, new_stack, schedule, Scheduler};
use rvkernel::trap_handler::{next_timer_deadline, trap_handler, TrapCause};

fn running(entry: usize) -> (Scheduler, HartInfo, Context, usize) {
    let mut scheduler = Scheduler::new();
    let id = create_thread(&mut scheduler, entry, false, &[], 0, new_stack(), 0x8000);
    let mut hart = HartInfo::new(0);
    let mut context = Context::default();
    schedule(&mut scheduler, &mut hart, &mut context, 0x10, 0);
    (scheduler, hart, context, id)
}

#[test]
fn exit_marks_running_thread_dead() {
    let (mut s, mut h, mut c, id) = running(0x100);
    c.a[7] = 0;
    let out = call(&mut c, &mut s, &mut h, 0x10, 0);
    assert!(out == EcallOutcome::Done);
    assert_eq!(c.a[0], 1);
    assert_eq!(c.sepc, 0x104);
    assert!(cleanup_thread(&s, id));
    schedule(&mut s, &mut h, &mut c, 0x10, 0);
    assert_eq!(h.current_thread_id, None);
}

#[test]
fn exit_without_thread_reports_zero() {
    let mut s = Scheduler::new();
    let mut h = HartInfo::new(0);
    let mut c = Context::default();
    c.a[0] = 9;
    let out = call(&mut c, &mut s, &mut h, 0x10, 0);
    assert!(out == EcallOutcome::Done);
    assert_eq!(c.a[0], 0);
    assert_eq!(c.sepc, 4);
}

#[test]
fn yield_switches_threads() {
    let (mut s, mut h, mut c, a) = running(0x100);
    let b = create_thread(&mut s, 0x200, false, &[], 0, new_stack(), 0x9000);
    c.a[7] = 1;
    let out = call(&mut c, &mut s, &mut h, 0x10, 0);
    assert!(out == EcallOutcome::RearmTimer);
    assert_eq!(h.current_thread_id, Some(b));
    assert_eq!(c.sepc, 0x200);
    c.a[7] = 1;
    call(&mut c, &mut s, &mut h, 0x10, 0);
    assert_eq!(h.current_thread_id, Some(a));
    assert_eq!(c.sepc, 0x104);
}

#[test]
fn create_request_carries_registers() {
    let (mut s, mut h, mut c, _) = running(0x100);
    c.a = [0x500, 4096, 0x7000, 16, 0, 0, 0, 2];
    let out = call(&mut c, &mut s, &mut h, 0x10, 0);
    assert!(out == EcallOutcome::CreateThread { entry: 0x500, stack_size: 4096, args_address: 0x7000, args_length: 16 });
    finish_create_thread(&mut c, 3);
    assert_eq!(c.a[0], 3);
    assert_eq!(c.a[1], 4096);
}

#[test]
fn wait_retries_while_thread_runs() {
    let (mut s, mut h, mut c, a) = running(0x100);
    let b = create_thread(&mut s, 0x200, false, &[], 0, new_stack(), 0x9000);
    c.a[0] = b;
    c.a[7] = 3;
    let out = call(&mut c, &mut s, &mut h, 0x10, 0);
    assert!(out == EcallOutcome::RearmTimer);
    assert_eq!(h.current_thread_id, Some(b));
    c.a[7] = 0;
    call(&mut c, &mut s, &mut h, 0x10, 0);
    schedule(&mut s, &mut h, &mut c, 0x10, 0);
    assert_eq!(h.current_thread_id, Some(a));
    assert_eq!(c.sepc, 0x100);
    assert_eq!(c.a[7], 3);
    let out = call(&mut c, &mut s, &mut h, 0x10, 0);
    assert!(out == EcallOutcome::Done);
    assert_eq!(c.sepc, 0x104);
}

#[test]
fn other_calls_are_handed_back() {
    let (mut s, mut h, mut c, _) = running(0x100);
    c.a[7] = 9;
    assert!(call(&mut c, &mut s, &mut h, 0x10, 0) == EcallOutcome::Shutdown);
    c.a[7] = 10;
    c.a[0] = 0x1_0000_0041;
    assert!(call(&mut c, &mut s, &mut h, 0x10, 0) == EcallOutcome::PrintChar { code: 0x41 });
    c.a[7] = 11;
    c.a[0] = 0x3000;
    c.a[1] = 5;
    assert!(call(&mut c, &mut s, &mut h, 0x10, 0) == EcallOutcome::PrintString { address: 0x3000, length: 5 });
    c.a[7] = 30;
    assert!(call(&mut c, &mut s, &mut h, 0x10, 0) == EcallOutcome::GetChar);
    c.a[7] = 99;
    assert!(call(&mut c, &mut s, &mut h, 0x10, 0) == EcallOutcome::Done);
    assert_eq!(c.sepc, 0x100 + 5 * 4);
}

#[test]
fn get_char_results() {
    let mut c = Context::default();
    c.a[0] = 7;
    finish_get_char(&mut c, Some(b'x'));
    assert_eq!(c.a[0], b'x' as usize);
    assert_eq!(c.a[1], 1);
    finish_get_char(&mut c, None);
    assert_eq!(c.a[0], b'x' as usize);
    assert_eq!(c.a[1], 0);
}

#[test]
fn timer_trap_reschedules() {
    let (mut s, mut h, mut c, _) = running(0x100);
    let b = create_thread(&mut s, 0x200, false, &[], 0, new_stack(), 0x9000);
    let out = trap_handler(TrapCause::SupervisorTimer, &mut c, &mut s, &mut h, 0x10, 0);
    assert!(out == EcallOutcome::RearmTimer);
    assert_eq!(h.current_thread_id, Some(b));
    assert_eq!(c.sepc, 0x200);
}

#[test]
fn user_ecall_trap_goes_to_call() {
    let (mut s, mut h, mut c, _) = running(0x100);
    c.a[7] = 9;
    let out = trap_handler(TrapCause::UserEnvCall, &mut c, &mut s, &mut h, 0x10, 0);
    assert!(out == EcallOutcome::Shutdown);
    assert_eq!(c.sepc, 0x104);
}

#[test]
fn timer_deadline() {
    assert_eq!(next_timer_deadline(5_000_000, 1_000_000), 6_000_000);
}
