//! What this crate relies on from the saved register set of a task.
//!
//! A `LocalContext` is opaque here. Its contents are named by the functions
//! below, and each operation on it that the crate performs is given a
//! contract over those names. None of these contracts is proved: they state
//! what the register set's own code does.

use tg_kernel_context::LocalContext;
use vstd::prelude::*;

verus! {

/// Number of the highest general-purpose register, `x31`.
pub const LAST_REGISTER: usize = 31;

/// Number of the general-purpose register that holds argument 0 (`a0` is `x10`).
pub const FIRST_ARGUMENT_REGISTER: usize = 10;

/// Highest argument index that `LocalContext::a` and `LocalContext::a_mut`
/// accept: `a21` is `x31`.
pub const LAST_ARGUMENT: usize = 21;

/// Number of the general-purpose register that holds the stack pointer (`sp` is `x2`).
pub const STACK_POINTER_REGISTER: usize = 2;

/// Width in bytes of the instruction that raises a system call.
pub const TRAP_INSTRUCTION_BYTES: usize = 4;

/// The saved register set of one task. Its fields are not read here.
#[verifier::external_type_specification]
#[verifier::external_body]
pub struct ExLocalContext(tg_kernel_context::LocalContext);

/// The value saved for general-purpose register `x<number>`, for `number`
/// from 1 to 31. (`x0` is constant and not saved.)
pub uninterp spec fn saved_register(ctx: LocalContext, number: int) -> usize;

/// The saved program counter: where the task resumes.
pub uninterp spec fn saved_pc(ctx: LocalContext) -> usize;

/// Whether the task resumes in supervisor mode rather than user mode.
pub uninterp spec fn resumes_in_supervisor_mode(ctx: LocalContext) -> bool;

/// Whether the task resumes with interrupts enabled.
pub uninterp spec fn resumes_with_interrupts(ctx: LocalContext) -> bool;

/// A saved register set as plain values.
pub struct ContextView {
    /// The general-purpose registers `x1` to `x31`, `x1` at index 0.
    pub registers: Seq<usize>,
    /// Where the task resumes.
    pub pc: usize,
    /// Whether it resumes in supervisor mode.
    pub supervisor: bool,
    /// Whether it resumes with interrupts enabled.
    pub interrupts: bool,
}

impl ContextView {
    /// Argument register `a<n>`.
    pub open spec fn arg(self, n: int) -> usize {
        self.registers[n + 9]
    }

    /// The stack pointer.
    pub open spec fn stack_pointer(self) -> usize {
        self.registers[1]
    }

    /// This register set with `value` in argument register `a<n>`.
    pub open spec fn with_arg(self, n: int, value: usize) -> ContextView {
        ContextView { registers: self.registers.update(n + 9, value), ..self }
    }

    /// This register set with `value` as its stack pointer.
    pub open spec fn with_stack_pointer(self, value: usize) -> ContextView {
        ContextView { registers: self.registers.update(1, value), ..self }
    }

    /// This register set resuming one trap instruction further on.
    pub open spec fn past_trap(self) -> ContextView {
        ContextView { pc: self.pc.wrapping_add(TRAP_INSTRUCTION_BYTES), ..self }
    }

    /// The register set of a task that has not run yet: it resumes at
    /// `entry` in user mode with interrupts enabled and all registers zero.
    pub open spec fn user(entry: usize) -> ContextView {
        ContextView {
            registers: Seq::new(LAST_REGISTER as nat, |i: int| 0usize),
            pc: entry,
            supervisor: false,
            interrupts: true,
        }
    }

    /// The all-zero register set.
    pub open spec fn empty() -> ContextView {
        ContextView {
            registers: Seq::new(LAST_REGISTER as nat, |i: int| 0usize),
            pc: 0,
            supervisor: false,
            interrupts: false,
        }
    }
}

/// The word that a register holds for the signed number `ret`: the number
/// itself where it is not negative, and otherwise the word with the same
/// bits, which is the number counted down from one past the largest word.
pub open spec fn register_value(ret: isize) -> usize {
    if ret >= 0 {
        ret as usize
    } else {
        (usize::MAX + 1 + ret) as usize
    }
}

/// The word that a register holds for the signed number `ret`.
pub fn as_register(ret: isize) -> (word: usize)
    ensures
        word == register_value(ret),
{
    if ret >= 0 {
        ret as usize
    } else {
        usize::MAX - ((-(ret + 1)) as usize)
    }
}

/// The contents of a context as plain values.
pub open spec fn context_view(ctx: LocalContext) -> ContextView {
    ContextView {
        registers: Seq::new(LAST_REGISTER as nat, |i: int| saved_register(ctx, i + 1)),
        pc: saved_pc(ctx),
        supervisor: resumes_in_supervisor_mode(ctx),
        interrupts: resumes_with_interrupts(ctx),
    }
}

/// `LocalContext::empty` builds a context whose registers and program
/// counter are all zero and whose two mode flags are clear.
pub assume_specification[ LocalContext::empty ]() -> (ctx: LocalContext)
    ensures
        forall|number: int| 1 <= number <= LAST_REGISTER ==> #[trigger] saved_register(ctx, number) == 0,
        saved_pc(ctx) == 0,
        !resumes_in_supervisor_mode(ctx),
        !resumes_with_interrupts(ctx),
;

/// `LocalContext::user` builds a context that resumes at `pc` in user mode
/// with interrupts enabled; every general-purpose register is zero.
pub assume_specification[ LocalContext::user ](pc: usize) -> (ctx: LocalContext)
    ensures
        forall|number: int| 1 <= number <= LAST_REGISTER ==> #[trigger] saved_register(ctx, number) == 0,
        saved_pc(ctx) == pc,
        !resumes_in_supervisor_mode(ctx),
        resumes_with_interrupts(ctx),
;

/// `LocalContext::a` reads argument register `a<n>`, which is `x<n + 10>`.
/// It indexes the register array, so `n` above 21 is a panic and is left out.
pub assume_specification[ LocalContext::a ](ctx: &LocalContext, n: usize) -> (value: usize)
    requires
        n <= LAST_ARGUMENT,
    ensures
        value == saved_register(*ctx, n + FIRST_ARGUMENT_REGISTER),
;

/// `LocalContext::a_mut` lends argument register `a<n>` for writing. What
/// the borrower leaves in it is the register's new value; every other
/// register, the program counter and the mode flags stay as they were.
pub assume_specification[ LocalContext::a_mut ](ctx: &mut LocalContext, n: usize) -> (lent:
    &mut usize)
    requires
        n <= LAST_ARGUMENT,
    ensures
        *lent == saved_register(*old(ctx), n + FIRST_ARGUMENT_REGISTER),
        saved_register(*final(ctx), n + FIRST_ARGUMENT_REGISTER) == *final(lent),
        forall|number: int|
            number != n + FIRST_ARGUMENT_REGISTER ==> #[trigger] saved_register(
                *final(ctx),
                number,
            ) == saved_register(*old(ctx), number),
        saved_pc(*final(ctx)) == saved_pc(*old(ctx)),
        resumes_in_supervisor_mode(*final(ctx)) == resumes_in_supervisor_mode(*old(ctx)),
        resumes_with_interrupts(*final(ctx)) == resumes_with_interrupts(*old(ctx)),
;

/// `LocalContext::sp_mut` lends the stack pointer, register `x2`, for
/// writing; nothing else in the context changes.
pub assume_specification[ LocalContext::sp_mut ](ctx: &mut LocalContext) -> (lent: &mut usize)
    ensures
        *lent == saved_register(*old(ctx), STACK_POINTER_REGISTER as int),
        saved_register(*final(ctx), STACK_POINTER_REGISTER as int) == *final(lent),
        forall|number: int|
            number != STACK_POINTER_REGISTER ==> #[trigger] saved_register(*final(ctx), number)
                == saved_register(*old(ctx), number),
        saved_pc(*final(ctx)) == saved_pc(*old(ctx)),
        resumes_in_supervisor_mode(*final(ctx)) == resumes_in_supervisor_mode(*old(ctx)),
        resumes_with_interrupts(*final(ctx)) == resumes_with_interrupts(*old(ctx)),
;

/// `LocalContext::move_next` advances the saved program counter by the
/// width of one uncompressed instruction, wrapping at the end of the address
/// space; registers and mode flags stay as they were.
pub assume_specification[ LocalContext::move_next ](ctx: &mut LocalContext)
    ensures
        saved_pc(*final(ctx)) == saved_pc(*old(ctx)).wrapping_add(TRAP_INSTRUCTION_BYTES),
        forall|number: int| #[trigger]
            saved_register(*final(ctx), number) == saved_register(*old(ctx), number),
        resumes_in_supervisor_mode(*final(ctx)) == resumes_in_supervisor_mode(*old(ctx)),
        resumes_with_interrupts(*final(ctx)) == resumes_with_interrupts(*old(ctx)),
;

} // verus!
