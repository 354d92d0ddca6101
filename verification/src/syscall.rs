//! What this crate relies on from the system-call dispatcher.
//!
//! The dispatcher forwards a call to whichever handler the kernel registered
//! for it, so its answer depends on state outside this crate. The contract
//! below therefore states only what holds of every answer.

use tg_syscall::{Caller, SyscallId, SyscallResult};
use vstd::prelude::*;

verus! {

/// A system-call number: a `usize` under a type of its own.
#[verifier::external_type_specification]
pub struct ExSyscallId(tg_syscall::SyscallId);

/// The dispatcher's answer: `Done` with the handler's return value, or
/// `Unsupported` with the number of the call that nobody handles.
#[verifier::external_type_specification]
pub struct ExSyscallResult(tg_syscall::SyscallResult);

/// Who made a call: `entity` identifies the resources, `flow` the thread.
#[verifier::external_type_specification]
pub struct ExCaller(tg_syscall::Caller);

/// Number of the `exit` system call.
pub const EXIT: usize = 93;

/// Number of the `sched_yield` system call.
pub const SCHED_YIELD: usize = 124;

/// `tg_syscall::handle` hands the call to the handler registered for its
/// number and wraps what the handler returns in `Done`; a call that has no
/// handler comes back as `Unsupported` with the number that was passed in.
/// Which of the two happens, and the value inside `Done`, are the
/// handlers' business. The handlers themselves are taken to return.
pub assume_specification[ tg_syscall::handle ](
    caller: Caller,
    id: SyscallId,
    args: [usize; 6],
) -> (outcome: SyscallResult)
    ensures
        outcome matches SyscallResult::Unsupported(unhandled) ==> unhandled == id,
;

/// The dispatcher's own constant for `exit`, `SyscallId::EXIT`, which its
/// table of call numbers sets to 93.
#[verifier::external_body]
pub(crate) fn exit_id() -> (id: SyscallId)
    ensures
        id.0 == EXIT,
{
    SyscallId::EXIT
}

/// The dispatcher's own constant for `sched_yield`, `SyscallId::SCHED_YIELD`,
/// which its table of call numbers sets to 124.
#[verifier::external_body]
pub(crate) fn yield_id() -> (id: SyscallId)
    ensures
        id.0 == SCHED_YIELD,
{
    SyscallId::SCHED_YIELD
}

} // verus!
