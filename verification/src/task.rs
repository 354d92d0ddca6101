//! The task control block and the system-call protocol.

use crate::context::{as_register, context_view, register_value, ContextView};
use crate::syscall::{exit_id, yield_id, EXIT, SCHED_YIELD};
use tg_kernel_context::LocalContext;
use tg_syscall::{Caller, SyscallId, SyscallResult};
use vstd::prelude::*;

verus! {

/// Number of system-call counters a task keeps. Calls numbered at or above
/// this are not counted.
pub const SYSCALL_COUNT_MAX: usize = 512;

/// Number of machine words in a task's private stack.
pub const STACK_WORDS: usize = 1024;

/// Size of a task's private stack in bytes: 8 KiB on a 64-bit machine.
pub open spec fn stack_bytes() -> int {
    STACK_WORDS * (usize::BITS / 8)
}

/// Everything the kernel keeps for one user task.
pub struct TaskControlBlock {
    /// Registers saved at the last trap.
    ctx: LocalContext,
    /// Set once the task has exited or was killed.
    pub finish: bool,
    /// The task's private stack. It grows downward from its end.
    stack: [usize; STACK_WORDS],
    /// How often the task has made each system call, by call number.
    syscall_counts: [usize; SYSCALL_COUNT_MAX],
}

/// What the scheduler should do after a system call.
#[derive(Debug, Clone, Copy, PartialEq, Eq)]
pub enum SchedulingEvent {
    /// Keep running the same task.
    Continue,
    /// The task gave up the processor.
    Yield,
    /// The task asked to exit, with this code.
    Exit(usize),
    /// Nobody handles this call.
    UnsupportedSyscall(SyscallId),
}

/// A task control block as plain values.
pub struct TaskView {
    /// The saved register set.
    pub context: ContextView,
    /// Whether the task has exited or was killed.
    pub finish: bool,
    /// The words of the private stack.
    pub stack: Seq<usize>,
    /// The system-call counters, by call number.
    pub syscall_counts: Seq<usize>,
}

/// The counters after one more call numbered `id`: the counter at `id` goes
/// up by one, wrapping at the top of its range; a number beyond the
/// counters changes nothing.
pub open spec fn counted(counts: Seq<usize>, id: usize) -> Seq<usize> {
    if id < counts.len() {
        counts.update(id as int, counts[id as int].wrapping_add(1))
    } else {
        counts
    }
}

/// How often the call numbered `id` occurs among `calls`.
pub open spec fn occurrences(calls: Seq<usize>, id: usize) -> nat
    decreases calls.len(),
{
    if calls.len() == 0 {
        0
    } else {
        occurrences(calls.drop_last(), id) + if calls.last() == id {
            1nat
        } else {
            0nat
        }
    }
}

/// The counters after the calls numbered `calls` have been counted one
/// after the other.
pub open spec fn counted_all(counts: Seq<usize>, calls: Seq<usize>) -> Seq<usize>
    decreases calls.len(),
{
    if calls.len() == 0 {
        counts
    } else {
        counted(counted_all(counts, calls.drop_last()), calls.last())
    }
}

/// After any run of calls, each counter has grown by the number of calls
/// that bore its number, as long as that still fits in the counter.
pub proof fn lemma_counts_are_exact(counts: Seq<usize>, calls: Seq<usize>, id: usize)
    requires
        id < counts.len(),
        counts[id as int] + occurrences(calls, id) <= usize::MAX,
    ensures
        counted_all(counts, calls).len() == counts.len(),
        counted_all(counts, calls)[id as int] == counts[id as int] + occurrences(calls, id),
    decreases calls.len(),
{
    if calls.len() > 0 {
        lemma_counts_are_exact(counts, calls.drop_last(), id);
    }
}

/// Calls numbered beyond the counters leave every counter as it was.
pub proof fn lemma_calls_beyond_counters(counts: Seq<usize>, calls: Seq<usize>)
    requires
        forall|i: int| 0 <= i < calls.len() ==> #[trigger] calls[i] >= counts.len(),
    ensures
        counted_all(counts, calls) == counts,
    decreases calls.len(),
{
    if calls.len() > 0 {
        let earlier = calls.drop_last();
        assert forall|i: int| 0 <= i < earlier.len() implies #[trigger] earlier[i]
            >= counts.len() by {
            assert(earlier[i] == calls[i]);
        }
        lemma_calls_beyond_counters(counts, earlier);
        assert(calls.last() == calls[calls.len() - 1]);
    }
}

impl TaskView {
    /// Whether each part has the size that a control block gives it.
    pub open spec fn wf(self) -> bool {
        &&& self.context.registers.len() == 31
        &&& self.stack.len() == STACK_WORDS
        &&& self.syscall_counts.len() == SYSCALL_COUNT_MAX
    }

    /// A call that was carried out, other than `exit`, leaves the task
    /// resuming exactly one trap instruction further on, with the handler's
    /// return value in `a0` and every other register as it was. After
    /// `exit`, and after a call that nobody handles, the task is as it
    /// trapped.
    pub proof fn lemma_answered(self, id: usize, outcome: SyscallResult)
        requires
            self.wf(),
        ensures
            self.answered(id, outcome).wf(),
            outcome matches SyscallResult::Done(ret) ==> id != EXIT ==> {
                &&& self.answered(id, outcome).context.pc == self.context.pc.wrapping_add(4)
                &&& self.answered(id, outcome).context.arg(0) == register_value(ret)
                &&& forall|n: int|
                    0 <= n < 31 && n != 9 ==> #[trigger] self.answered(
                        id,
                        outcome,
                    ).context.registers[n] == self.context.registers[n]
            },
            outcome is Done && id == EXIT ==> self.answered(id, outcome) == self,
            outcome is Unsupported ==> self.answered(id, outcome) == self,
            self.answered(id, outcome).syscall_counts == self.syscall_counts,
            self.answered(id, outcome).stack == self.stack,
            self.answered(id, outcome).finish == self.finish,
    {
    }

    /// The directive tells which kind of answer the dispatcher gave and
    /// which call it was: `Exit` and `Yield` come from those two calls
    /// carried out, `Continue` from any other call carried out, and
    /// `UnsupportedSyscall` from a call that nobody handles. `Exit` carries
    /// the value that the dispatcher returned, `UnsupportedSyscall` the
    /// number of the call.
    pub proof fn lemma_directive(self, id: usize, outcome: SyscallResult)
        ensures
            self.directive(id, outcome) is Exit <==> outcome is Done && id == EXIT,
            self.directive(id, outcome) is Yield <==> outcome is Done && id == SCHED_YIELD,
            self.directive(id, outcome) is Continue <==> outcome is Done && id != EXIT && id
                != SCHED_YIELD,
            self.directive(id, outcome) is UnsupportedSyscall <==> outcome is Unsupported,
            self.directive(id, outcome) matches SchedulingEvent::Exit(code) ==> (
            outcome matches SyscallResult::Done(ret) && code == register_value(ret)),
            self.directive(id, outcome) matches SchedulingEvent::UnsupportedSyscall(unhandled)
                ==> unhandled.0 == id,
    {
    }

    /// Whether the task may still run.
    pub open spec fn alive(self) -> bool {
        !self.finish
    }

    /// The number of the system call that the task has trapped with.
    pub open spec fn call_id(self) -> usize {
        self.context.arg(7)
    }

    /// The six arguments of the system call that the task has trapped with.
    pub open spec fn call_args(self) -> Seq<usize> {
        Seq::new(6, |n: int| self.context.arg(n))
    }

    /// A task that has not run and owns nothing yet: every part zero.
    pub open spec fn blank() -> TaskView {
        TaskView {
            context: ContextView::empty(),
            finish: false,
            stack: Seq::new(STACK_WORDS as nat, |i: int| 0usize),
            syscall_counts: Seq::new(SYSCALL_COUNT_MAX as nat, |i: int| 0usize),
        }
    }

    /// A task ready for its first run: alive, stack and counters zero,
    /// resuming at `entry` in user mode with `stack_top` as stack pointer.
    pub open spec fn fresh(entry: usize, stack_top: usize) -> TaskView {
        TaskView {
            context: ContextView::user(entry).with_stack_pointer(stack_top),
            finish: false,
            stack: Seq::new(STACK_WORDS as nat, |i: int| 0usize),
            syscall_counts: Seq::new(SYSCALL_COUNT_MAX as nat, |i: int| 0usize),
        }
    }

    /// The task with its pending call counted.
    pub open spec fn with_call_counted(self) -> TaskView {
        TaskView { syscall_counts: counted(self.syscall_counts, self.call_id()), ..self }
    }

    /// The task after the dispatcher answered its call numbered `id` with
    /// `outcome`. A call that was carried out, other than `exit`, leaves its
    /// return value in `a0` and resumes behind the trap instruction. After
    /// `exit`, and after a call that nobody handles, nothing has changed.
    pub open spec fn answered(self, id: usize, outcome: SyscallResult) -> TaskView {
        match outcome {
            SyscallResult::Done(ret) => if id == EXIT {
                self
            } else {
                TaskView {
                    context: self.context.with_arg(0, register_value(ret)).past_trap(),
                    ..self
                }
            },
            SyscallResult::Unsupported(_) => self,
        }
    }

    /// What the scheduler is told after the dispatcher answered the call
    /// numbered `id` with `outcome`. The code of an exit is the value that
    /// the dispatcher returned for it.
    pub open spec fn directive(self, id: usize, outcome: SyscallResult) -> SchedulingEvent {
        match outcome {
            SyscallResult::Done(ret) => if id == EXIT {
                SchedulingEvent::Exit(register_value(ret))
            } else if id == SCHED_YIELD {
                SchedulingEvent::Yield
            } else {
                SchedulingEvent::Continue
            },
            SyscallResult::Unsupported(_) => SchedulingEvent::UnsupportedSyscall(SyscallId(id)),
        }
    }
}

impl View for TaskControlBlock {
    type V = TaskView;

    closed spec fn view(&self) -> TaskView {
        TaskView {
            context: context_view(self.ctx),
            finish: self.finish,
            stack: self.stack@,
            syscall_counts: self.syscall_counts@,
        }
    }
}

/// The address of the first word of `region`, from `as_ptr` of std. Rust
/// places no object across the end of the address space, so the address one
/// past the region's last word is still a `usize`.
#[verifier::external_body]
fn address_of<const N: usize>(region: &[usize; N]) -> (base: usize)
    ensures
        base + N * (usize::BITS / 8) <= usize::MAX,
{
    region.as_ptr() as usize
}

/// The capability that the dispatcher is given for a task whose counters
/// stand at address `counters_at`: the address identifies the task, and its
/// one thread of control is numbered 0.
pub fn caller_at(counters_at: usize) -> (caller: Caller)
    ensures
        caller.entity == counters_at,
        caller.flow == 0,
{
    Caller { entity: counters_at, flow: 0 }
}

impl TaskControlBlock {
    /// Each part of a control block has its fixed size.
    pub proof fn lemma_view_wf(&self)
        ensures
            self@.wf(),
    {
    }

    /// A control block with every part zero, to fill a table with before
    /// any task is set up.
    pub fn zero() -> (tcb: Self)
        ensures
            tcb@ == TaskView::blank(),
    {
        let tcb = Self {
            ctx: LocalContext::empty(),
            finish: false,
            stack: [0; STACK_WORDS],
            syscall_counts: [0; SYSCALL_COUNT_MAX],
        };
        assert(tcb@.context.registers =~= ContextView::empty().registers);
        assert(tcb@.stack =~= TaskView::blank().stack);
        assert(tcb@.syscall_counts =~= TaskView::blank().syscall_counts);
        tcb
    }

    /// Sets the task up to start at `entry`, whatever the block held before:
    /// the task is alive, its stack and counters are zero, and it resumes at
    /// `entry` in user mode with the stack pointer one past the end of its
    /// own stack.
    pub fn init(&mut self, entry: usize)
        ensures
            final(self)@ == TaskView::fresh(entry, final(self)@.context.stack_pointer()),
            final(self)@.context.stack_pointer() >= stack_bytes(),
    {
        let base = address_of(&self.stack);
        self.init_at(entry, base);
    }

    /// Sets the task up to start at `entry` with a stack that begins at
    /// address `stack_base`, whatever the block held before.
    pub fn init_at(&mut self, entry: usize, stack_base: usize)
        requires
            stack_base + stack_bytes() <= usize::MAX,
        ensures
            final(self)@ == TaskView::fresh(entry, (stack_base + stack_bytes()) as usize),
    {
        broadcast use vstd::layout::layout_of_primitives;

        self.stack = [0; STACK_WORDS];
        self.finish = false;
        self.syscall_counts = [0; SYSCALL_COUNT_MAX];
        self.ctx = LocalContext::user(entry);
        *self.ctx.sp_mut() = stack_base + STACK_WORDS * core::mem::size_of::<usize>();
        proof {
            let goal = TaskView::fresh(entry, (stack_base + stack_bytes()) as usize);
            assert(self@.context.registers =~= goal.context.registers);
            assert(self@.stack =~= goal.stack);
            assert(self@.syscall_counts =~= goal.syscall_counts);
        }
    }

    /// The system call that the task has trapped with: its number, from
    /// `a7`, and its six arguments, from `a0` to `a5`.
    pub fn pending_call(&self) -> (call: (SyscallId, [usize; 6]))
        ensures
            call.0.0 == self@.call_id(),
            call.1@ == self@.call_args(),
    {
        let id = SyscallId(self.ctx.a(7));
        let args = [
            self.ctx.a(0),
            self.ctx.a(1),
            self.ctx.a(2),
            self.ctx.a(3),
            self.ctx.a(4),
            self.ctx.a(5),
        ];
        assert(args@ =~= self@.call_args());
        (id, args)
    }

    /// Serves the system call that the task has trapped with.
    ///
    /// The call is read as [`Self::pending_call`] reads it. It is counted,
    /// then handed to the dispatcher together with the capability that
    /// [`caller_at`] makes from the address of the task's own counters, and
    /// the dispatcher's answer is applied as
    /// [`Self::complete_syscall`] describes. So the task ends up as the
    /// protocol prescribes for one of the answers the dispatcher can give,
    /// and the directive returned belongs to that same answer.
    pub fn handle_syscall(&mut self) -> (event: SchedulingEvent)
        ensures
            exists|outcome: SyscallResult|
                {
                    &&& final(self)@ == #[trigger] old(self)@.with_call_counted().answered(
                        old(self)@.call_id(),
                        outcome,
                    )
                    &&& event == old(self)@.directive(old(self)@.call_id(), outcome)
                },
            final(self)@.syscall_counts == counted(
                old(self)@.syscall_counts,
                old(self)@.call_id(),
            ),
            final(self)@.stack == old(self)@.stack,
            final(self)@.finish == old(self)@.finish,
    {
        let (id, args) = self.pending_call();

        let id_val: usize = id.0;
        if id_val < SYSCALL_COUNT_MAX {
            self.syscall_counts[id_val] = self.syscall_counts[id_val].wrapping_add(1);
        }
        assert(self@ == old(self)@.with_call_counted());

        let caller = caller_at(address_of(&self.syscall_counts));
        let outcome = tg_syscall::handle(caller, id, args);
        self.complete_syscall(id, outcome)
    }

    /// Applies the dispatcher's answer `outcome` to the call numbered `id`
    /// and says what the scheduler is to do.
    ///
    /// - `exit` that was carried out: `Exit` with the value that the
    ///   dispatcher returned as its code; the task is left as it trapped,
    ///   since it will not resume.
    /// - `sched_yield` that was carried out: the return value goes to `a0`,
    ///   the task resumes behind the trap instruction, `Yield`.
    /// - any other call that was carried out: the same, with `Continue`.
    /// - a call that nobody handles: `UnsupportedSyscall` with its number;
    ///   the task is left as it trapped.
    pub fn complete_syscall(&mut self, id: SyscallId, outcome: SyscallResult) -> (event:
        SchedulingEvent)
        ensures
            final(self)@ == old(self)@.answered(id.0, outcome),
            event == old(self)@.directive(id.0, outcome),
    {
        match outcome {
            SyscallResult::Done(ret) => {
                let word = as_register(ret);
                if id.0 == exit_id().0 {
                    SchedulingEvent::Exit(word)
                } else {
                    *self.ctx.a_mut(0) = word;
                    self.ctx.move_next();
                    assert(self@.context.registers =~= old(self)@.context.registers.update(
                        9,
                        word,
                    ));
                    if id.0 == yield_id().0 {
                        SchedulingEvent::Yield
                    } else {
                        SchedulingEvent::Continue
                    }
                }
            },
            SyscallResult::Unsupported(_) => SchedulingEvent::UnsupportedSyscall(id),
        }
    }

    /// The saved register set, to read.
    pub fn context(&self) -> (ctx: &LocalContext)
        ensures
            context_view(*ctx) == self@.context,
    {
        &self.ctx
    }

    /// The saved register set, to resume the task from or to change.
    pub fn context_mut(&mut self) -> (ctx: &mut LocalContext)
        ensures
            context_view(*ctx) == old(self)@.context,
            final(self)@ == (TaskView { context: context_view(*final(ctx)), ..old(self)@ }),
    {
        &mut self.ctx
    }

    /// The system-call counters, by call number.
    pub fn syscall_counts(&self) -> (counts: &[usize; SYSCALL_COUNT_MAX])
        ensures
            counts@ == self@.syscall_counts,
    {
        &self.syscall_counts
    }

    /// The words of the private stack.
    pub fn stack(&self) -> (words: &[usize; STACK_WORDS])
        ensures
            words@ == self@.stack,
    {
        &self.stack
    }
}

} // verus!
