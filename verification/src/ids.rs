//! What this crate relies on from process identifiers.

use tg_task_manage::ProcId;
use vstd::prelude::*;

verus! {

/// A process identifier: a `usize` under a type of its own, ordered as the
/// number is.
#[verifier::external_type_specification]
#[verifier::external_body]
pub struct ExProcId(tg_task_manage::ProcId);

/// The number inside a process identifier.
pub uninterp spec fn proc_id_value(id: ProcId) -> usize;

/// `ProcId::from_usize` wraps the number it is given.
pub assume_specification[ ProcId::from_usize ](v: usize) -> (id: ProcId)
    ensures
        proc_id_value(id) == v,
;

/// `ProcId::get_usize` returns the number inside the identifier.
pub assume_specification[ ProcId::get_usize ](id: &ProcId) -> (v: usize)
    ensures
        v == proc_id_value(*id),
;

} // verus!
