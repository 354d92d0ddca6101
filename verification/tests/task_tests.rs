use task_sched::context::as_register;
use task_sched::task::{SchedulingEvent, TaskControlBlock, STACK_WORDS, SYSCALL_COUNT_MAX};
use tg_syscall::{Caller, SyscallId, SyscallResult};

struct Io;

impl tg_syscall::IO for Io {
    fn write(&self, _caller: Caller, _fd: usize, _buf: usize, count: usize) -> isize {
        count as isize
    }

    fn read(&self, _caller: Caller, _fd: usize, _buf: usize, _count: usize) -> isize {
        -1
    }
}

struct Proc;

impl tg_syscall::Process for Proc {
    fn exit(&self, _caller: Caller, status: usize) -> isize {
        2 * status as isize
    }

    fn getpid(&self, _caller: Caller) -> isize {
        42
    }
}

struct Sched;

impl tg_syscall::Scheduling for Sched {
    fn sched_yield(&self, _caller: Caller) -> isize {
        0
    }
}

/// Registers the handlers above. The clock, memory, signal, thread and
/// trace subsystems stay without a handler.
fn install() {
    tg_syscall::init_io(Box::leak(Box::new(Io)));
    tg_syscall::init_process(Box::leak(Box::new(Proc)));
    tg_syscall::init_scheduling(Box::leak(Box::new(Sched)));
}

fn trapped(entry: usize, id: usize, args: [usize; 6]) -> TaskControlBlock {
    let mut tcb = TaskControlBlock::zero();
    tcb.init(entry);
    let ctx = tcb.context_mut();
    *ctx.a_mut(7) = id;
    for (n, value) in args.iter().enumerate() {
        *ctx.a_mut(n) = *value;
    }
    tcb
}

fn stack_top(tcb: &TaskControlBlock) -> usize {
    tcb.stack().as_ptr() as usize + std::mem::size_of_val(tcb.stack())
}

#[test]
fn zero_block_is_all_zero() {
    let tcb = TaskControlBlock::zero();
    assert!(!tcb.finish);
    assert_eq!(tcb.context().pc(), 0);
    assert_eq!(tcb.context().sp(), 0);
    assert!(!tcb.context().supervisor);
    assert!(!tcb.context().interrupt);
    for n in 1..=31 {
        assert_eq!(tcb.context().x(n), 0);
    }
    assert!(tcb.stack().iter().all(|w| *w == 0));
    assert!(tcb.syscall_counts().iter().all(|c| *c == 0));
    assert_eq!(tcb.stack().len(), STACK_WORDS);
    assert_eq!(tcb.syscall_counts().len(), SYSCALL_COUNT_MAX);
}

#[test]
fn init_sets_up_a_fresh_task() {
    let mut tcb = TaskControlBlock::zero();
    tcb.init(0x8040_0000);
    assert!(!tcb.finish);
    assert_eq!(tcb.context().pc(), 0x8040_0000);
    assert_eq!(tcb.context().sp(), stack_top(&tcb));
    assert_eq!(std::mem::size_of_val(tcb.stack()), 8192);
    assert!(!tcb.context().supervisor);
    assert!(tcb.context().interrupt);
    for n in 1..=31 {
        if n != 2 {
            assert_eq!(tcb.context().x(n), 0);
        }
    }
    assert!(tcb.stack().iter().all(|w| *w == 0));
    assert!(tcb.syscall_counts().iter().all(|c| *c == 0));
}

#[test]
fn init_forgets_what_the_block_held() {
    install();
    let mut tcb = trapped(0x1000, 64, [1, 0x2000, 17, 0, 0, 0]);
    tcb.handle_syscall();
    tcb.handle_syscall();
    tcb.finish = true;
    assert_eq!(tcb.syscall_counts()[64], 2);
    assert_eq!(tcb.context().pc(), 0x1008);

    tcb.init(0x3000);
    assert!(!tcb.finish);
    assert_eq!(tcb.context().pc(), 0x3000);
    assert_eq!(tcb.context().sp(), stack_top(&tcb));
    assert_eq!(tcb.context().a(0), 0);
    assert_eq!(tcb.context().a(7), 0);
    assert!(tcb.syscall_counts().iter().all(|c| *c == 0));
    assert!(tcb.stack().iter().all(|w| *w == 0));

    tcb.init(0x3000);
    assert!(!tcb.finish);
    assert_eq!(tcb.context().pc(), 0x3000);
    assert_eq!(tcb.context().sp(), stack_top(&tcb));
    assert!(tcb.syscall_counts().iter().all(|c| *c == 0));
}

#[test]
fn init_at_puts_the_stack_pointer_past_the_given_stack() {
    let mut tcb = TaskControlBlock::zero();
    tcb.init_at(0x1000, 0x9000_0000);
    assert_eq!(tcb.context().pc(), 0x1000);
    assert_eq!(tcb.context().sp(), 0x9000_2000);
    assert!(!tcb.finish);

    tcb.init_at(0x1000, usize::MAX - 8192);
    assert_eq!(tcb.context().sp(), usize::MAX);
}

#[test]
fn write_continues_with_the_return_value_in_a0() {
    install();
    let mut tcb = trapped(0x1000, 64, [1, 0x2000, 17, 0, 0, 0]);
    let sp = tcb.context().sp();
    let event = tcb.handle_syscall();
    assert_eq!(event, SchedulingEvent::Continue);
    assert_eq!(tcb.context().a(0), 17);
    assert_eq!(tcb.context().pc(), 0x1004);
    assert_eq!(tcb.context().a(1), 0x2000);
    assert_eq!(tcb.context().a(2), 17);
    assert_eq!(tcb.context().a(7), 64);
    assert_eq!(tcb.context().sp(), sp);
    assert_eq!(tcb.syscall_counts()[64], 1);
    assert!(!tcb.finish);
}

#[test]
fn negative_return_value_is_kept_bit_for_bit() {
    install();
    let mut tcb = trapped(0x1000, 63, [0, 0x2000, 8, 0, 0, 0]);
    let event = tcb.handle_syscall();
    assert_eq!(event, SchedulingEvent::Continue);
    assert_eq!(tcb.context().a(0), usize::MAX);
    assert_eq!(tcb.context().pc(), 0x1004);
    assert_eq!(tcb.syscall_counts()[63], 1);
}

#[test]
fn yield_advances_and_reports_yield() {
    install();
    let mut tcb = trapped(0x2000, 124, [9, 0, 0, 0, 0, 0]);
    let event = tcb.handle_syscall();
    assert_eq!(event, SchedulingEvent::Yield);
    assert_eq!(tcb.context().a(0), 0);
    assert_eq!(tcb.context().pc(), 0x2004);
    assert_eq!(tcb.syscall_counts()[124], 1);
}

#[test]
fn exit_reports_the_code_and_leaves_the_task_as_it_trapped() {
    install();
    let mut tcb = trapped(0x2000, 93, [7, 0, 0, 0, 0, 0]);
    let event = tcb.handle_syscall();
    // the code is what the handler returned, not what the task passed in
    assert_eq!(event, SchedulingEvent::Exit(14));
    assert_eq!(tcb.context().a(0), 7);
    assert_eq!(tcb.context().pc(), 0x2000);
    assert_eq!(tcb.syscall_counts()[93], 1);
    assert!(!tcb.finish);
}

#[test]
fn call_without_handler_is_unsupported_and_still_counted() {
    install();
    let mut tcb = trapped(0x2000, 113, [5, 6, 0, 0, 0, 0]);
    let event = tcb.handle_syscall();
    assert_eq!(event, SchedulingEvent::UnsupportedSyscall(SyscallId(113)));
    assert_eq!(tcb.context().a(0), 5);
    assert_eq!(tcb.context().pc(), 0x2000);
    assert_eq!(tcb.syscall_counts()[113], 1);
}

#[test]
fn unknown_call_beyond_the_counters_changes_nothing() {
    install();
    let mut tcb = trapped(0x2000, 512, [5, 0, 0, 0, 0, 0]);
    let event = tcb.handle_syscall();
    assert_eq!(event, SchedulingEvent::UnsupportedSyscall(SyscallId(512)));
    assert!(tcb.syscall_counts().iter().all(|c| *c == 0));
    assert_eq!(tcb.context().pc(), 0x2000);

    let mut tcb = trapped(0x2000, usize::MAX, [5, 0, 0, 0, 0, 0]);
    let event = tcb.handle_syscall();
    assert_eq!(event, SchedulingEvent::UnsupportedSyscall(SyscallId(usize::MAX)));
    assert!(tcb.syscall_counts().iter().all(|c| *c == 0));
}

#[test]
fn last_counter_is_counted() {
    install();
    let mut tcb = trapped(0x2000, 511, [0; 6]);
    let event = tcb.handle_syscall();
    assert_eq!(event, SchedulingEvent::UnsupportedSyscall(SyscallId(511)));
    assert_eq!(tcb.syscall_counts()[511], 1);
    assert_eq!(tcb.syscall_counts().iter().sum::<usize>(), 1);
}

#[test]
fn counters_hold_the_exact_number_of_calls() {
    install();
    let mut tcb = TaskControlBlock::zero();
    tcb.init(0x1000);
    let calls = [64usize, 172, 64, 124, 64, 172, 600, 113, 64];
    for id in calls {
        *tcb.context_mut().a_mut(7) = id;
        *tcb.context_mut().a_mut(2) = 3;
        tcb.handle_syscall();
    }
    for id in 0..SYSCALL_COUNT_MAX {
        let expected = calls.iter().filter(|c| **c == id).count();
        assert_eq!(tcb.syscall_counts()[id], expected);
    }
    assert_eq!(tcb.syscall_counts()[64], 4);
    assert_eq!(tcb.syscall_counts()[172], 2);
    assert_eq!(tcb.syscall_counts()[124], 1);
    assert_eq!(tcb.syscall_counts()[113], 1);
    // seven of the calls were carried out, each moving on by one instruction
    assert_eq!(tcb.context().pc(), 0x1000 + 7 * 4);
}

#[test]
fn getpid_returns_the_handlers_value() {
    install();
    let mut tcb = trapped(0x1000, 172, [0; 6]);
    let event = tcb.handle_syscall();
    assert_eq!(event, SchedulingEvent::Continue);
    assert_eq!(tcb.context().a(0), 42);
}

#[test]
fn complete_syscall_applies_each_answer() {
    let mut tcb = trapped(0x4000, 64, [11, 12, 13, 0, 0, 0]);

    let event = tcb.complete_syscall(SyscallId(64), SyscallResult::Done(5));
    assert_eq!(event, SchedulingEvent::Continue);
    assert_eq!(tcb.context().a(0), 5);
    assert_eq!(tcb.context().pc(), 0x4004);

    let event = tcb.complete_syscall(SyscallId::SCHED_YIELD, SyscallResult::Done(-2));
    assert_eq!(event, SchedulingEvent::Yield);
    assert_eq!(tcb.context().a(0), usize::MAX - 1);
    assert_eq!(tcb.context().pc(), 0x4008);

    let event = tcb.complete_syscall(SyscallId::EXIT, SyscallResult::Done(3));
    assert_eq!(event, SchedulingEvent::Exit(3));
    assert_eq!(tcb.context().a(0), usize::MAX - 1);
    assert_eq!(tcb.context().pc(), 0x4008);

    let event = tcb.complete_syscall(SyscallId(64), SyscallResult::Unsupported(SyscallId(64)));
    assert_eq!(event, SchedulingEvent::UnsupportedSyscall(SyscallId(64)));
    assert_eq!(tcb.context().pc(), 0x4008);

    let event = tcb.complete_syscall(SyscallId(93), SyscallResult::Unsupported(SyscallId(93)));
    assert_eq!(event, SchedulingEvent::UnsupportedSyscall(SyscallId(93)));
    assert_eq!(tcb.context().pc(), 0x4008);

    // the counters belong to the dispatch, not to the answer
    assert!(tcb.syscall_counts().iter().all(|c| *c == 0));
}

#[test]
fn exit_and_yield_are_told_apart_by_number() {
    let mut tcb = trapped(0x4000, 0, [3, 0, 0, 0, 0, 0]);
    assert_eq!(
        tcb.complete_syscall(SyscallId(93), SyscallResult::Done(1)),
        SchedulingEvent::Exit(1)
    );
    assert_eq!(
        tcb.complete_syscall(SyscallId(124), SyscallResult::Done(1)),
        SchedulingEvent::Yield
    );
    assert_eq!(
        tcb.complete_syscall(SyscallId(92), SyscallResult::Done(1)),
        SchedulingEvent::Continue
    );
    assert_eq!(task_sched::syscall::EXIT, SyscallId::EXIT.0);
    assert_eq!(task_sched::syscall::SCHED_YIELD, SyscallId::SCHED_YIELD.0);
}

#[test]
fn program_counter_wraps_at_the_end_of_the_address_space() {
    let mut tcb = trapped(usize::MAX - 1, 64, [0; 6]);
    tcb.complete_syscall(SyscallId(64), SyscallResult::Done(0));
    assert_eq!(tcb.context().pc(), 2);
}

#[test]
fn context_mut_changes_only_the_registers() {
    let mut tcb = TaskControlBlock::zero();
    tcb.init(0x1000);
    *tcb.context_mut().a_mut(3) = 77;
    assert_eq!(tcb.context().a(3), 77);
    assert_eq!(tcb.context().pc(), 0x1000);
    assert!(!tcb.finish);
    assert!(tcb.syscall_counts().iter().all(|c| *c == 0));
}

#[test]
fn pending_call_reads_number_and_arguments() {
    let tcb = trapped(0x1000, 64, [1, 2, 3, 4, 5, 6]);
    let (id, args) = tcb.pending_call();
    assert_eq!(id, SyscallId(64));
    assert_eq!(args, [1, 2, 3, 4, 5, 6]);
    // reading changes nothing
    assert_eq!(tcb.context().a(7), 64);
    assert_eq!(tcb.context().pc(), 0x1000);
    assert!(tcb.syscall_counts().iter().all(|c| *c == 0));
}

#[test]
fn negative_exit_code_is_kept_bit_for_bit() {
    let mut tcb = trapped(0x4000, 93, [5, 0, 0, 0, 0, 0]);
    assert_eq!(
        tcb.complete_syscall(SyscallId::EXIT, SyscallResult::Done(-1)),
        SchedulingEvent::Exit(usize::MAX)
    );
    assert_eq!(
        tcb.complete_syscall(SyscallId::EXIT, SyscallResult::Done(isize::MIN)),
        SchedulingEvent::Exit(1usize << (usize::BITS - 1))
    );
    assert_eq!(tcb.context().a(0), 5);
    assert_eq!(tcb.context().pc(), 0x4000);
}

#[test]
fn register_word_of_a_signed_number() {
    assert_eq!(as_register(0), 0);
    assert_eq!(as_register(17), 17);
    assert_eq!(as_register(isize::MAX), isize::MAX as usize);
    assert_eq!(as_register(-1), usize::MAX);
    assert_eq!(as_register(-2), usize::MAX - 1);
    assert_eq!(as_register(isize::MIN), isize::MIN as usize);
    for ret in [-1000isize, -3, 5, 123_456, isize::MIN + 1] {
        assert_eq!(as_register(ret), ret as usize);
    }
}

#[test]
fn caller_names_the_task_by_its_counters() {
    let caller = task_sched::task::caller_at(0x8000_1000);
    assert_eq!(caller.entity, 0x8000_1000);
    assert_eq!(caller.flow, 0);
}
