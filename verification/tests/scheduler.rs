use rvkernel::context::Context;
use rvkernel::hart::HartInfo;
use rvkernel::thread::{
    cleanup_thread, create_thread, delete_thread, get_current_thread, new_stack, schedule,
    with_previous_interrupt_enable, with_previous_privilege, Scheduler, SSTATUS_SPIE, SSTATUS_SPP,
    STACK_SIZE,
};

const IDLE: usize = 0xdead_0000;

fn spawn(s: &mut Scheduler, entry: usize, args: &[u8]) -> usize {
    create_thread(s, entry, false, args, 0, new_stack(), 0x9000_0000)
}

#[test]
fn created_thread_runs_first() {
    let mut scheduler = Scheduler::new();
    let id = spawn(&mut scheduler, 0x8000_1000, &[1, 2, 3]);
    let mut hart = HartInfo::new(0);
    let mut context = Context::default();
    schedule(&mut scheduler, &mut hart, &mut context, IDLE, 0);
    assert_eq!(hart.current_thread_id, Some(id));
    assert_eq!(get_current_thread(&hart), Some(id));
    assert_eq!(context.sepc, 0x8000_1000);
    assert_eq!(context.sp, 0x9000_0000 + STACK_SIZE - 3);
    assert_eq!(context.a[0], context.sp);
    assert_eq!(context.a[1], 0);
    assert_eq!(context.ra, 0);
}

#[test]
fn new_thread_sstatus_follows_privilege() {
    let mut scheduler = Scheduler::new();
    let user = create_thread(&mut scheduler, 1, false, &[], SSTATUS_SPP, new_stack(), 0x1000);
    let kernel = create_thread(&mut scheduler, 2, true, &[], 0, new_stack(), 0x2000);
    let mut hart = HartInfo::new(0);
    let mut context = Context::default();
    schedule(&mut scheduler, &mut hart, &mut context, IDLE, 0);
    assert_eq!(hart.current_thread_id, Some(user));
    assert_eq!(context.sstatus, SSTATUS_SPIE);
    schedule(&mut scheduler, &mut hart, &mut context, IDLE, 0);
    assert_eq!(hart.current_thread_id, Some(kernel));
    assert_eq!(context.sstatus, SSTATUS_SPIE | SSTATUS_SPP);
    assert_eq!(context.sp, 0x2000 + STACK_SIZE);
}

#[test]
fn round_robin_alternates_and_saves_registers() {
    let mut scheduler = Scheduler::new();
    let a = spawn(&mut scheduler, 0x100, &[]);
    let b = spawn(&mut scheduler, 0x200, &[]);
    let mut hart = HartInfo::new(0);
    let mut context = Context::default();
    schedule(&mut scheduler, &mut hart, &mut context, IDLE, 0);
    assert_eq!(hart.current_thread_id, Some(a));
    context.sepc = 0x104;
    context.s[3] = 77;
    schedule(&mut scheduler, &mut hart, &mut context, IDLE, 0);
    assert_eq!(hart.current_thread_id, Some(b));
    assert_eq!(context.sepc, 0x200);
    assert_eq!(context.s[3], 0);
    schedule(&mut scheduler, &mut hart, &mut context, IDLE, 0);
    assert_eq!(hart.current_thread_id, Some(a));
    assert_eq!(context.sepc, 0x104);
    assert_eq!(context.s[3], 77);
}

#[test]
fn lone_thread_keeps_running() {
    let mut scheduler = Scheduler::new();
    let a = spawn(&mut scheduler, 0x100, &[]);
    let mut hart = HartInfo::new(3);
    let mut context = Context::default();
    schedule(&mut scheduler, &mut hart, &mut context, IDLE, 0);
    context.t[2] = 5;
    schedule(&mut scheduler, &mut hart, &mut context, IDLE, 0);
    assert_eq!(hart.current_thread_id, Some(a));
    assert_eq!(context.t[2], 5);
    assert_eq!(hart.hart_id, 3);
}

#[test]
fn dead_thread_is_dropped_and_never_resumed() {
    let mut scheduler = Scheduler::new();
    let a = spawn(&mut scheduler, 0x100, &[]);
    let b = spawn(&mut scheduler, 0x200, &[]);
    assert!(delete_thread(&mut scheduler, a));
    assert!(cleanup_thread(&scheduler, a));
    assert!(!cleanup_thread(&scheduler, b));
    let mut hart = HartInfo::new(0);
    let mut context = Context::default();
    schedule(&mut scheduler, &mut hart, &mut context, IDLE, 0);
    assert_eq!(hart.current_thread_id, Some(b));
    schedule(&mut scheduler, &mut hart, &mut context, IDLE, 0);
    assert_eq!(hart.current_thread_id, Some(b));
    assert!(!delete_thread(&mut scheduler, a));
}

#[test]
fn delete_of_unknown_thread_fails() {
    let mut scheduler = Scheduler::new();
    assert!(!delete_thread(&mut scheduler, 42));
    assert!(cleanup_thread(&scheduler, 42));
}

#[test]
fn idle_when_nothing_runs() {
    let mut scheduler = Scheduler::new();
    let a = spawn(&mut scheduler, 0x100, &[]);
    let mut hart = HartInfo::new(0);
    let mut context = Context::default();
    schedule(&mut scheduler, &mut hart, &mut context, IDLE, 0);
    assert!(delete_thread(&mut scheduler, a));
    context.ra = 9;
    schedule(&mut scheduler, &mut hart, &mut context, IDLE, 0x2);
    assert_eq!(hart.current_thread_id, None);
    assert_eq!(context.sepc, IDLE);
    assert_eq!(context.sstatus, 0x2 | SSTATUS_SPIE | SSTATUS_SPP);
    assert_eq!(context.ra, 9);
    assert!(cleanup_thread(&scheduler, a));
}

#[test]
fn arguments_are_copied_to_the_top_of_the_stack() {
    let mut scheduler = Scheduler::new();
    let mut stack = new_stack();
    stack[0] = 0xaa;
    let _ = create_thread(&mut scheduler, 0x100, false, &[7, 8], 0, stack, 0x4000);
    let mut hart = HartInfo::new(0);
    let mut context = Context::default();
    schedule(&mut scheduler, &mut hart, &mut context, IDLE, 0);
    assert_eq!(context.sp, 0x4000 + STACK_SIZE - 2);
}

#[test]
fn sstatus_bits() {
    assert_eq!(with_previous_privilege(0, true), 0x100);
    assert_eq!(with_previous_privilege(0x1ff, false), 0xff);
    assert_eq!(with_previous_interrupt_enable(0x100), 0x120);
}

#[test]
fn new_stack_is_zeroed() {
    let stack = new_stack();
    assert_eq!(stack.len(), STACK_SIZE);
    assert!(stack.iter().all(|b| *b == 0));
}

#[test]
fn every_live_thread_gets_its_turn() {
    let mut scheduler = Scheduler::new();
    let a = spawn(&mut scheduler, 0x100, &[]);
    let b = spawn(&mut scheduler, 0x200, &[]);
    let c = spawn(&mut scheduler, 0x300, &[]);
    let mut hart = HartInfo::new(0);
    let mut context = Context::default();
    schedule(&mut scheduler, &mut hart, &mut context, IDLE, 0);
    assert_eq!(hart.current_thread_id, Some(a));
    assert!(delete_thread(&mut scheduler, b));
    let mut seen = Vec::new();
    for _ in 0..4 {
        schedule(&mut scheduler, &mut hart, &mut context, IDLE, 0);
        seen.push(hart.current_thread_id.unwrap());
    }
    assert_eq!(seen, vec![c, a, c, a]);
    assert!(cleanup_thread(&scheduler, b));
    assert!(!cleanup_thread(&scheduler, a));
    assert!(!cleanup_thread(&scheduler, c));
}

#[test]
fn two_harts_never_run_the_same_thread() {
    let mut scheduler = Scheduler::new();
    let a = spawn(&mut scheduler, 0x100, &[]);
    let b = spawn(&mut scheduler, 0x200, &[]);
    let c = spawn(&mut scheduler, 0x300, &[]);
    let mut first = HartInfo::new(0);
    let mut second = HartInfo::new(1);
    let mut first_context = Context::default();
    let mut second_context = Context::default();
    schedule(&mut scheduler, &mut first, &mut first_context, IDLE, 0);
    schedule(&mut scheduler, &mut second, &mut second_context, IDLE, 0);
    assert_eq!((first.current_thread_id, second.current_thread_id), (Some(a), Some(b)));
    for _ in 0..6 {
        schedule(&mut scheduler, &mut first, &mut first_context, IDLE, 0);
        assert_ne!(first.current_thread_id, second.current_thread_id);
        schedule(&mut scheduler, &mut second, &mut second_context, IDLE, 0);
        assert_ne!(first.current_thread_id, second.current_thread_id);
    }
    assert!(delete_thread(&mut scheduler, c));
    for _ in 0..4 {
        schedule(&mut scheduler, &mut first, &mut first_context, IDLE, 0);
        schedule(&mut scheduler, &mut second, &mut second_context, IDLE, 0);
        assert_ne!(first.current_thread_id, Some(c));
        assert_ne!(second.current_thread_id, Some(c));
    }
}
